use hibou_label::action::BroadcastPrimitive;
use hibou_label::affected::{get_affected_on_execute, get_affected_on_prune};
use hibou_label::context::GeneralContext;
use hibou_label::execute::{
    execute_broadcast_primitive, execute_interaction, execute_interaction_both,
    execute_interaction_left, execute_interaction_right, make_follow_up_loop,
};
use hibou_label::frontier::{abstract_frontier_rec, global_frontier, FrontierElement};
use hibou_label::interaction::Interaction;
use hibou_label::message::MessageTypeExpression;
use hibou_label::position::Position;
use hibou_label::sync::SyncMap;
use hibou_label::trace::{TraceAction, TraceActionKind};
use std::collections::HashSet;

const A: usize = 0;
const B: usize = 1;
const C: usize = 2;
const M: usize = 0;
const N: usize = 1;
const T: usize = 0;

fn set(ids: &[usize]) -> HashSet<usize> {
    ids.iter().cloned().collect()
}

/// Lifelines `a`, `b`, `c`, messages `m`, `n`, and the type `t = {m, n}`.
fn table() -> GeneralContext {
    let mut ctx = GeneralContext::new();
    ctx.add_lf("a".to_string());
    ctx.add_lf("b".to_string());
    ctx.add_lf("c".to_string());
    ctx.add_msg("m".to_string());
    ctx.add_msg("n".to_string());
    ctx.add_mt("t".to_string(), set(&[M, N]));
    ctx
}

fn msg(m: usize) -> MessageTypeExpression {
    MessageTypeExpression::Singleton(m)
}

fn any() -> MessageTypeExpression {
    MessageTypeExpression::NamedType(T)
}

fn emit(origin: usize, m: usize, targets: Vec<usize>) -> Interaction {
    Interaction::Action(BroadcastPrimitive::new(Some(origin), msg(m), targets))
}

fn emit_any(origin: usize, targets: Vec<usize>) -> Interaction {
    Interaction::Action(BroadcastPrimitive::new(Some(origin), any(), targets))
}

fn recv(m: usize, targets: Vec<usize>) -> Interaction {
    Interaction::Action(BroadcastPrimitive::new(None, msg(m), targets))
}

fn seq(i1: Interaction, i2: Interaction) -> Interaction {
    Interaction::CoReg(vec![], Box::new(i1), Box::new(i2))
}

fn coreg(cr: Vec<usize>, i1: Interaction, i2: Interaction) -> Interaction {
    Interaction::CoReg(cr, Box::new(i1), Box::new(i2))
}

fn alt(i1: Interaction, i2: Interaction) -> Interaction {
    Interaction::Alt(Box::new(i1), Box::new(i2))
}

fn lp(i1: Interaction) -> Interaction {
    Interaction::Loop(vec![], Box::new(i1))
}

fn sync_on(lf: usize, kind: TraceActionKind, message: MessageTypeExpression) -> SyncMap {
    let mut map = SyncMap::new();
    map.insert(lf, kind, message);
    map
}

fn sync(map: SyncMap, i1: Interaction, i2: Interaction) -> Interaction {
    Interaction::Sync(map, Box::new(i1), Box::new(i2))
}

fn emits(lf: usize, m: usize) -> TraceAction {
    TraceAction::new(lf, TraceActionKind::Emission, msg(m))
}

fn receives(lf: usize, m: usize) -> TraceAction {
    TraceAction::new(lf, TraceActionKind::Reception, msg(m))
}

fn here() -> Position {
    Position::Epsilon(None)
}

fn at(k: usize) -> Position {
    Position::Epsilon(Some(k))
}

fn left(p: Position) -> Position {
    Position::Left(Box::new(p))
}

fn right(p: Position) -> Position {
    Position::Right(Box::new(p))
}

fn both(p1: Position, p2: Position) -> Position {
    Position::Both(Box::new(p1), Box::new(p2))
}

fn elt(position: Position, action: TraceAction, depth: u32) -> FrontierElement {
    FrontierElement::new(position, action, depth)
}

fn frontier(i: &Interaction) -> Vec<FrontierElement> {
    global_frontier(i, &table(), &None)
}

#[test]
fn frontier_of_an_action_is_its_emission_or_its_receptions() {
    assert_eq!(frontier(&Interaction::Empty), vec![]);
    assert_eq!(frontier(&emit(A, M, vec![B, C])), vec![elt(here(), emits(A, M), 0)]);
    assert_eq!(
        frontier(&recv(M, vec![B, C])),
        vec![elt(at(0), receives(B, M), 0), elt(at(1), receives(C, M), 0)]
    );
    assert_eq!(frontier(&recv(M, vec![])), vec![]);
}

#[test]
fn frontier_of_a_loop_counts_the_loops_entered() {
    assert_eq!(
        frontier(&lp(lp(emit(A, M, vec![])))),
        vec![elt(left(left(here())), emits(A, M), 2)]
    );
    assert_eq!(
        abstract_frontier_rec(&lp(emit(A, M, vec![])), 3, &table()),
        vec![elt(left(here()), emits(A, M), 4)]
    );
}

#[test]
fn frontier_of_a_sequence_lets_pass_what_commutes() {
    let first = emit(A, M, vec![B]);
    assert_eq!(
        frontier(&seq(first.clone(), emit(C, M, vec![A]))),
        vec![elt(left(here()), emits(A, M), 0), elt(right(here()), emits(C, M), 0)]
    );
    assert_eq!(
        frontier(&seq(first.clone(), emit(B, N, vec![]))),
        vec![elt(left(here()), emits(A, M), 0)]
    );
    assert_eq!(
        frontier(&coreg(vec![B], first.clone(), emit(B, N, vec![]))),
        vec![elt(left(here()), emits(A, M), 0), elt(right(here()), emits(B, N), 0)]
    );
    // a choice on the left that can do without the lifeline lets it pass
    assert_eq!(
        frontier(&seq(alt(first, Interaction::Empty), emit(B, N, vec![]))),
        vec![elt(left(left(here())), emits(A, M), 0), elt(right(here()), emits(B, N), 0)]
    );
}

#[test]
fn frontier_of_a_choice_pairs_the_equal_actions() {
    assert_eq!(
        frontier(&alt(emit(A, M, vec![B]), emit(A, M, vec![C]))),
        vec![elt(both(here(), here()), emits(A, M), 0)]
    );
    assert_eq!(
        frontier(&alt(emit(A, M, vec![B]), emit(C, M, vec![]))),
        vec![elt(left(here()), emits(A, M), 0), elt(right(here()), emits(C, M), 0)]
    );
    assert_eq!(
        frontier(&alt(lp(emit(A, M, vec![])), emit(A, M, vec![]))),
        vec![elt(both(left(here()), here()), emits(A, M), 1)]
    );
    // the pairs come first, then what only the left shows, then the right
    assert_eq!(
        frontier(&alt(
            seq(emit(B, N, vec![]), emit(A, M, vec![])),
            seq(emit(C, N, vec![]), emit(A, M, vec![]))
        )),
        vec![
            elt(both(right(here()), right(here())), emits(A, M), 0),
            elt(left(left(here())), emits(B, N), 0),
            elt(right(left(here())), emits(C, N), 0),
        ]
    );
    assert_eq!(
        frontier(&alt(recv(M, vec![B, C]), recv(M, vec![C, B]))),
        vec![
            elt(both(at(0), at(1)), receives(B, M), 0),
            elt(both(at(1), at(0)), receives(C, M), 0),
        ]
    );
}

#[test]
fn frontier_of_a_synchronisation_splits_the_expected_actions() {
    let map = sync_on(A, TraceActionKind::Emission, msg(M));
    assert_eq!(
        frontier(&sync(map.clone(), emit_any(A, vec![B]), emit(A, M, vec![C]))),
        vec![elt(left(here()), emits(A, N), 0), elt(both(here(), here()), emits(A, M), 0)]
    );
    // an expected action that the other side does not offer has to wait
    assert_eq!(frontier(&sync(map.clone(), emit(A, M, vec![B]), Interaction::Empty)), vec![]);
    // what the map does not expect passes
    assert_eq!(
        frontier(&sync(map.clone(), emit(B, M, vec![]), emit(A, N, vec![]))),
        vec![elt(left(here()), emits(B, M), 0), elt(right(here()), emits(A, N), 0)]
    );
    // the two sides meet on the messages that both offer
    let wide = sync_on(A, TraceActionKind::Emission, any());
    assert_eq!(
        frontier(&sync(wide.clone(), emit_any(A, vec![B]), emit(A, N, vec![C]))),
        vec![elt(both(here(), here()), emits(A, N), 0)]
    );
    assert_eq!(
        frontier(&sync(wide, emit(A, M, vec![B]), emit(A, N, vec![C]))),
        vec![]
    );
}

#[test]
fn synchronisation_keeps_all_the_messages_of_a_split_action() {
    let ctx = table();
    let map = sync_on(A, TraceActionKind::Emission, msg(M));
    let i = sync(map, emit_any(A, vec![B]), emit(A, M, vec![C]));
    let mut kept: HashSet<usize> = HashSet::new();
    for e in frontier(&i) {
        if e.position != right(here()) {
            kept.extend(e.target_action.message.resolve(&ctx));
        }
    }
    assert_eq!(kept, any().resolve(&ctx));
}

#[test]
fn global_frontier_is_narrowed_to_the_actions_to_match() {
    let ctx = table();
    let i = seq(emit_any(A, vec![B]), emit(C, M, vec![]));
    assert_eq!(
        global_frontier(&i, &ctx, &Some(vec![emits(A, M)])),
        vec![elt(left(here()), emits(A, M), 0)]
    );
    assert_eq!(global_frontier(&i, &ctx, &Some(vec![receives(B, M)])), vec![]);
    assert_eq!(global_frontier(&i, &ctx, &Some(vec![])), vec![]);
    assert_eq!(
        global_frontier(&i, &ctx, &Some(vec![emits(C, M), emits(A, N), emits(A, M)])),
        vec![
            elt(left(here()), emits(A, N), 0),
            elt(left(here()), emits(A, M), 0),
            elt(right(here()), emits(C, M), 0),
        ]
    );
    assert_eq!(global_frontier(&i, &ctx, &Some(vec![emits(C, N)])), vec![]);
    assert_eq!(
        global_frontier(&i, &ctx, &None),
        vec![
            elt(left(here()), TraceAction::new(A, TraceActionKind::Emission, any()), 0),
            elt(right(here()), emits(C, M), 0),
        ]
    );
}

#[test]
fn executing_a_broadcast_consumes_the_emission_then_the_receptions() {
    let ctx = table();
    let run = |i: &Interaction, p: Position, a: TraceAction| execute_interaction(i, &p, &a, &ctx);
    assert_eq!(run(&emit(A, M, vec![B, C]), here(), emits(A, M)), recv(M, vec![B, C]));
    assert_eq!(run(&emit(A, M, vec![]), here(), emits(A, M)), Interaction::Empty);
    assert_eq!(run(&recv(M, vec![B, C]), at(0), receives(B, M)), recv(M, vec![C]));
    assert_eq!(run(&recv(M, vec![B, C]), at(1), receives(C, M)), recv(M, vec![B]));
    assert_eq!(run(&recv(M, vec![B]), at(0), receives(B, M)), Interaction::Empty);
    // the message that was sent is the one to receive
    assert_eq!(run(&emit_any(A, vec![B]), here(), emits(A, N)), recv(N, vec![B]));
    let bp = BroadcastPrimitive::new(Some(A), any(), vec![C]);
    assert_eq!(execute_broadcast_primitive(&bp, &None, &emits(A, M), &ctx), recv(M, vec![C]));
}

#[test]
fn executing_in_a_choice_decides_it() {
    let ctx = table();
    let i = alt(emit(A, M, vec![B]), emit(C, N, vec![]));
    assert_eq!(execute_interaction(&i, &left(here()), &emits(A, M), &ctx), recv(M, vec![B]));
    assert_eq!(execute_interaction(&i, &right(here()), &emits(C, N), &ctx), Interaction::Empty);
    let i = alt(emit(A, M, vec![B]), emit(A, M, vec![C]));
    assert_eq!(
        execute_interaction(&i, &both(here(), here()), &emits(A, M), &ctx),
        alt(recv(M, vec![B]), recv(M, vec![C]))
    );
    assert_eq!(
        execute_interaction_both(&i, &here(), &here(), &emits(A, M), &ctx),
        alt(recv(M, vec![B]), recv(M, vec![C]))
    );
}

#[test]
fn executing_on_the_right_of_a_sequence_prunes_the_left() {
    let ctx = table();
    let first = alt(emit(A, M, vec![B]), emit(C, N, vec![]));
    let i = seq(first.clone(), emit(A, N, vec![B]));
    assert_eq!(
        execute_interaction(&i, &right(here()), &emits(A, N), &ctx),
        seq(emit(C, N, vec![]), recv(N, vec![B]))
    );
    // a lifeline of the co-region leaves the left operand as it is
    let i = coreg(vec![A], first.clone(), emit(A, N, vec![B]));
    assert_eq!(
        execute_interaction(&i, &right(here()), &emits(A, N), &ctx),
        coreg(vec![A], first.clone(), recv(N, vec![B]))
    );
    assert_eq!(
        execute_interaction_right(&i, &here(), &emits(A, N), &ctx),
        coreg(vec![A], first.clone(), recv(N, vec![B]))
    );
    let i = seq(first.clone(), emit(A, N, vec![]));
    assert_eq!(
        execute_interaction(&i, &right(here()), &emits(A, N), &ctx),
        emit(C, N, vec![])
    );
    let i = seq(emit(A, M, vec![]), emit(B, N, vec![]));
    assert_eq!(execute_interaction(&i, &left(here()), &emits(A, M), &ctx), emit(B, N, vec![]));
    assert_eq!(execute_interaction_left(&i, &here(), &emits(A, M), &ctx), emit(B, N, vec![]));
}

#[test]
fn executing_in_a_loop_unfolds_it() {
    let ctx = table();
    let once = lp(emit(A, M, vec![]));
    assert_eq!(execute_interaction(&once, &left(here()), &emits(A, M), &ctx), once);
    let body = seq(emit(A, M, vec![]), emit(B, M, vec![]));
    let i = lp(body.clone());
    assert_eq!(
        execute_interaction(&i, &left(left(here())), &emits(A, M), &ctx),
        seq(emit(B, M, vec![]), i.clone())
    );
    // iterations without the firing lifeline may still come first
    let body = alt(emit(A, M, vec![B]), emit(C, M, vec![]));
    let i = lp(body.clone());
    assert_eq!(
        execute_interaction(&i, &left(left(here())), &emits(A, M), &ctx),
        seq(lp(emit(C, M, vec![])), seq(recv(M, vec![B]), i.clone()))
    );
    // the lifelines of the co-region are pruned too
    let i = Interaction::Loop(vec![C], Box::new(body.clone()));
    assert_eq!(
        execute_interaction(&i, &left(left(here())), &emits(A, M), &ctx),
        coreg(vec![C], recv(M, vec![B]), i.clone())
    );
    assert_eq!(
        make_follow_up_loop(&body, recv(M, vec![B]), &vec![C], A, &ctx),
        coreg(vec![C], recv(M, vec![B]), i.clone())
    );
    assert_eq!(make_follow_up_loop(&body, Interaction::Empty, &vec![C], A, &ctx), i);
}

#[test]
fn executing_in_a_synchronisation_rebuilds_it() {
    let ctx = table();
    let map = sync_on(A, TraceActionKind::Emission, msg(M));
    let i = sync(map.clone(), emit_any(A, vec![B]), emit(A, M, vec![C]));
    assert_eq!(
        execute_interaction(&i, &both(here(), here()), &emits(A, M), &ctx),
        coreg(vec![A, B, C], recv(M, vec![B]), recv(M, vec![C]))
    );
    assert_eq!(
        execute_interaction(&i, &left(here()), &emits(A, N), &ctx),
        sync(map.clone(), recv(N, vec![B]), emit(A, M, vec![C]))
    );
    let i = sync(map.clone(), emit(B, M, vec![]), emit(A, M, vec![C]));
    assert_eq!(
        execute_interaction(&i, &left(here()), &emits(B, M), &ctx),
        sync(map, Interaction::Empty, emit(A, M, vec![C]))
    );
}

#[test]
fn execution_never_nests_loops_deeper() {
    let ctx = table();
    let terms = vec![
        lp(alt(emit(A, M, vec![B]), lp(emit(C, M, vec![])))),
        seq(lp(emit(A, M, vec![B])), lp(lp(emit(C, N, vec![])))),
        alt(lp(emit(A, M, vec![])), emit(A, M, vec![B])),
    ];
    for t in terms {
        let depth = t.max_nested_loop_depth();
        for e in frontier(&t) {
            let child = execute_interaction(&t, &e.position, &e.target_action, &ctx);
            assert!(child.max_nested_loop_depth() <= depth);
            assert!(child.max_nested_loop_depth() <= depth + e.max_loop_depth);
        }
    }
}

#[test]
fn every_element_of_a_frontier_can_be_executed() {
    let ctx = table();
    let map = sync_on(A, TraceActionKind::Emission, msg(M));
    let start = seq(
        sync(map, emit_any(A, vec![B]), lp(emit(A, M, vec![C]))),
        alt(lp(coreg(vec![B], emit(B, N, vec![A]), emit(C, N, vec![B]))), recv(M, vec![A, B])),
    );
    let mut level = vec![start];
    for _ in 0..3 {
        let mut next = vec![];
        for t in &level {
            for e in frontier(t) {
                next.push(execute_interaction(t, &e.position, &e.target_action, &ctx));
            }
        }
        assert!(!next.is_empty());
        level = next;
    }
}

#[test]
fn a_term_without_frontier_can_end_unless_a_synchronisation_waits() {
    let idle = vec![
        Interaction::Empty,
        recv(M, vec![]),
        seq(recv(M, vec![]), alt(Interaction::Empty, recv(N, vec![]))),
    ];
    for t in idle {
        assert!(frontier(&t).is_empty());
        assert!(t.express_empty());
    }
    let map = sync_on(A, TraceActionKind::Emission, msg(M));
    let stuck = sync(map, emit(A, M, vec![]), Interaction::Empty);
    assert!(frontier(&stuck).is_empty());
    assert!(!stuck.express_empty());
    // a term can express empty and still show actions
    assert!(lp(emit(A, M, vec![])).express_empty());
    assert!(!frontier(&lp(emit(A, M, vec![]))).is_empty());
}

#[test]
fn pruning_affects_the_choices_and_loops_that_lose_a_branch() {
    let with_a = emit(A, M, vec![B]);
    let with_c = emit(C, M, vec![]);
    assert_eq!(get_affected_on_prune(&Interaction::Empty, A), set(&[]));
    assert_eq!(get_affected_on_prune(&with_a, A), set(&[]));
    assert_eq!(get_affected_on_prune(&alt(with_a.clone(), with_c.clone()), A), set(&[A, B, C]));
    assert_eq!(get_affected_on_prune(&alt(with_c.clone(), with_c.clone()), A), set(&[]));
    assert_eq!(get_affected_on_prune(&lp(with_a.clone()), A), set(&[A, B]));
    assert_eq!(get_affected_on_prune(&lp(with_c.clone()), A), set(&[]));
    assert_eq!(
        get_affected_on_prune(&lp(alt(with_c.clone(), lp(with_a.clone()))), A),
        set(&[A, B])
    );
    assert_eq!(
        get_affected_on_prune(&seq(lp(with_a.clone()), lp(emit(A, N, vec![C]))), A),
        set(&[A, B, C])
    );
}

#[test]
fn execution_affects_the_lifelines_of_what_it_decides() {
    let with_a = emit(A, M, vec![B]);
    let with_c = emit(C, M, vec![]);
    assert_eq!(get_affected_on_execute(&with_a, &here(), A), set(&[]));
    assert_eq!(get_affected_on_execute(&lp(with_a.clone()), &left(here()), A), set(&[A, B]));
    let choice = alt(with_a.clone(), with_c.clone());
    assert_eq!(get_affected_on_execute(&choice, &left(here()), A), set(&[A, B, C]));
    assert_eq!(get_affected_on_execute(&choice, &right(here()), C), set(&[A, B, C]));
    assert_eq!(
        get_affected_on_execute(&alt(with_a.clone(), with_a.clone()), &both(here(), here()), A),
        set(&[])
    );
    assert_eq!(
        get_affected_on_execute(&seq(lp(with_a.clone()), with_c.clone()), &left(left(here())), A),
        set(&[A, B])
    );
    // on the right of a sequence, what the left loses counts where the
    // lifeline is in the co-region
    let i = coreg(vec![A], choice.clone(), emit(A, N, vec![]));
    assert_eq!(get_affected_on_execute(&i, &right(here()), A), set(&[A, B, C]));
    let i = seq(choice.clone(), emit(A, N, vec![]));
    assert_eq!(get_affected_on_execute(&i, &right(here()), A), set(&[]));
    let map = sync_on(A, TraceActionKind::Emission, msg(M));
    let i = sync(map, lp(with_a.clone()), choice);
    assert_eq!(get_affected_on_execute(&i, &left(left(here())), A), set(&[A, B]));
    assert_eq!(get_affected_on_execute(&i, &right(right(here())), C), set(&[A, B, C]));
    assert_eq!(
        get_affected_on_execute(&i, &both(left(here()), left(here())), A),
        set(&[A, B, C])
    );
}

#[test]
fn an_action_that_passes_keeps_only_its_other_messages() {
    let mut ctx = GeneralContext::new();
    ctx.add_lf("a".to_string());
    for k in 0..10 {
        ctx.add_msg(format!("m{}", k));
    }
    ctx.add_mt("t1".to_string(), set(&[1, 2, 5]));
    ctx.add_mt("t2".to_string(), set(&[2, 3]));
    let named = |t: usize| MessageTypeExpression::NamedType(t);
    let union = |x, y| MessageTypeExpression::Union(Box::new(x), Box::new(y));
    let minus = |x, y| MessageTypeExpression::SetMinus(Box::new(x), Box::new(y));
    let offered = minus(union(named(0), named(1)), union(named(1), msg(4)));
    assert_eq!(offered.resolve(&ctx), set(&[1, 5]));
    let leaf = Interaction::Action(BroadcastPrimitive::new(Some(A), offered, vec![]));
    let term = sync(sync_on(A, TraceActionKind::Emission, msg(9)), leaf, Interaction::Empty);
    let shown = global_frontier(&term, &ctx, &None);
    assert_eq!(shown.len(), 1);
    assert_eq!(shown[0].position, left(here()));
    assert_eq!(shown[0].target_action.message, minus(named(0), union(named(1), msg(4))));
    assert_eq!(shown[0].target_action.message.resolve(&ctx), set(&[1, 5]));
    assert!(term.is_executable(&shown[0].position, &shown[0].target_action, &ctx));
}

#[test]
fn a_meeting_on_a_difference_can_fire() {
    let mut ctx = GeneralContext::new();
    ctx.add_lf("a".to_string());
    for k in 0..4 {
        ctx.add_msg(format!("m{}", k));
    }
    ctx.add_mt("T0".to_string(), set(&[0, 1]));
    ctx.add_mt("T1".to_string(), set(&[1, 2, 3]));
    let named = |t: usize| MessageTypeExpression::NamedType(t);
    let union = |x, y| MessageTypeExpression::Union(Box::new(x), Box::new(y));
    let minus = |x, y| MessageTypeExpression::SetMinus(Box::new(x), Box::new(y));
    let left_leaf = Interaction::Action(BroadcastPrimitive::new(
        Some(A),
        minus(union(named(0), named(1)), named(0)),
        vec![],
    ));
    let right_leaf = Interaction::Action(BroadcastPrimitive::new(Some(A), named(1), vec![]));
    let term = sync(sync_on(A, TraceActionKind::Emission, named(1)), left_leaf, right_leaf);
    let shown = global_frontier(&term, &ctx, &None);
    assert_eq!(shown.len(), 1);
    assert_eq!(shown[0].position, both(here(), here()));
    assert_eq!(shown[0].target_action.message.resolve(&ctx), set(&[2, 3]));
    assert!(term.is_executable(&shown[0].position, &shown[0].target_action, &ctx));
    // against an entry of the map, only the other messages pass
    let leaf = Interaction::Action(BroadcastPrimitive::new(
        Some(A),
        union(named(0), named(1)),
        vec![],
    ));
    let term = sync(sync_on(A, TraceActionKind::Emission, named(0)), leaf, Interaction::Empty);
    let shown = global_frontier(&term, &ctx, &None);
    assert_eq!(shown.len(), 1);
    assert_eq!(shown[0].position, left(here()));
    assert_eq!(shown[0].target_action.message.resolve(&ctx), set(&[2, 3]));
    assert!(term.is_executable(&shown[0].position, &shown[0].target_action, &ctx));
}
