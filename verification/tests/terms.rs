use hibou_label::action::BroadcastPrimitive;
use hibou_label::context::GeneralContext;
use hibou_label::frags::{
    fold_interactions_in_binary_operator, fold_recursive_alt_frags, fold_recursive_coreg_frags,
    fold_recursive_sync_frags, get_recursive_alt_frags, get_recursive_coreg_frags,
    get_recursive_sync_frags, BinaryOperatorKind,
};
use hibou_label::interaction::Interaction;
use hibou_label::message::MessageTypeExpression;
use hibou_label::simplify::InteractionSyntacticSimplifier;
use hibou_label::sync::SyncMap;
use hibou_label::trace::{TraceAction, TraceActionKind};
use std::collections::HashSet;

const A: usize = 0;
const B: usize = 1;
const C: usize = 2;
const M: usize = 0;
const N: usize = 1;

fn set(ids: &[usize]) -> HashSet<usize> {
    ids.iter().cloned().collect()
}

/// Lifelines `a`, `b`, `c` and messages `m`, `n`.
fn table() -> GeneralContext {
    let mut ctx = GeneralContext::new();
    ctx.add_lf("a".to_string());
    ctx.add_lf("b".to_string());
    ctx.add_lf("c".to_string());
    ctx.add_msg("m".to_string());
    ctx.add_msg("n".to_string());
    ctx
}

fn msg(m: usize) -> MessageTypeExpression {
    MessageTypeExpression::Singleton(m)
}

fn emit(origin: usize, m: usize, targets: Vec<usize>) -> Interaction {
    Interaction::Action(BroadcastPrimitive::new(Some(origin), msg(m), targets))
}

fn recv(m: usize, targets: Vec<usize>) -> Interaction {
    Interaction::Action(BroadcastPrimitive::new(None, msg(m), targets))
}

fn seq(i1: Interaction, i2: Interaction) -> Interaction {
    Interaction::CoReg(vec![], Box::new(i1), Box::new(i2))
}

fn alt(i1: Interaction, i2: Interaction) -> Interaction {
    Interaction::Alt(Box::new(i1), Box::new(i2))
}

fn lp(i1: Interaction) -> Interaction {
    Interaction::Loop(vec![], Box::new(i1))
}

fn sync_on(lf: usize, kind: TraceActionKind, m: usize) -> SyncMap {
    let mut map = SyncMap::new();
    map.insert(lf, kind, msg(m));
    map
}

fn sync(map: SyncMap, i1: Interaction, i2: Interaction) -> Interaction {
    Interaction::Sync(map, Box::new(i1), Box::new(i2))
}

#[test]
fn structurally_empty_broadcast_has_neither_origin_nor_target() {
    assert!(BroadcastPrimitive::new(None, msg(M), vec![]).is_structurally_empty());
    assert!(!BroadcastPrimitive::new(Some(A), msg(M), vec![]).is_structurally_empty());
    assert!(!BroadcastPrimitive::new(None, msg(M), vec![B]).is_structurally_empty());
}

#[test]
fn express_empty_follows_the_operators() {
    assert!(Interaction::Empty.express_empty());
    assert!(!emit(A, M, vec![B]).express_empty());
    assert!(recv(M, vec![]).express_empty());
    assert!(lp(emit(A, M, vec![B])).express_empty());
    assert!(!seq(Interaction::Empty, emit(A, M, vec![])).express_empty());
    assert!(seq(Interaction::Empty, lp(emit(A, M, vec![]))).express_empty());
    assert!(alt(emit(A, M, vec![]), Interaction::Empty).express_empty());
    assert!(!alt(emit(A, M, vec![]), emit(B, M, vec![])).express_empty());
    let map = sync_on(A, TraceActionKind::Emission, M);
    assert!(!sync(map.clone(), Interaction::Empty, emit(A, M, vec![])).express_empty());
    assert!(sync(map, Interaction::Empty, Interaction::Empty).express_empty());
}

#[test]
fn loops_are_counted_and_measured() {
    let i = seq(lp(lp(emit(A, M, vec![]))), alt(lp(emit(B, M, vec![])), Interaction::Empty));
    assert_eq!(i.max_nested_loop_depth(), 2);
    assert_eq!(i.total_loop_num(), 3);
    assert_eq!(Interaction::Empty.max_nested_loop_depth(), 0);
    assert_eq!(emit(A, M, vec![B]).total_loop_num(), 0);
}

#[test]
fn involved_lifelines_are_those_of_the_actions() {
    let i = seq(emit(A, M, vec![B]), lp(recv(M, vec![C])));
    assert_eq!(i.involved_lifelines(), set(&[A, B, C]));
    assert_eq!(Interaction::Empty.involved_lifelines(), set(&[]));
    assert!(i.involves_any_of(&set(&[C, 7])));
    assert!(!emit(A, M, vec![B]).involves_any_of(&set(&[C])));
    assert_eq!(BroadcastPrimitive::new(Some(A), msg(M), vec![B, B]).involved_lifelines(), set(&[A, B]));
}

#[test]
fn avoidance_needs_all_of_a_sequence_and_one_branch_of_a_choice() {
    let a_to_b = emit(A, M, vec![B]);
    let c_alone = emit(C, M, vec![]);
    assert!(Interaction::Empty.avoids_all_of(&set(&[A])));
    assert!(!a_to_b.avoids_all_of(&set(&[B])));
    assert!(a_to_b.avoids_all_of(&set(&[C])));
    assert!(!seq(a_to_b.clone(), c_alone.clone()).avoids_all_of(&set(&[C])));
    assert!(alt(a_to_b.clone(), c_alone.clone()).avoids_all_of(&set(&[C])));
    assert!(!alt(a_to_b.clone(), c_alone.clone()).avoids_all_of(&set(&[A, C])));
    assert!(lp(a_to_b.clone()).avoids_all_of(&set(&[A, B])));
    assert!(a_to_b.avoids(C));
    assert!(!a_to_b.avoids(A));
    let ctx = table();
    assert_eq!(a_to_b.get_avoidance_map(&ctx), vec![false, false, true]);
    assert_eq!(lp(a_to_b).get_avoidance_map(&ctx), vec![true, true, true]);
}

#[test]
fn trace_actions_are_collected_once() {
    let i = seq(emit(A, M, vec![B, C]), alt(emit(A, M, vec![B]), recv(N, vec![B])));
    let got: HashSet<TraceAction> = i.get_all_trace_actions().into_iter().collect();
    let expected: HashSet<TraceAction> = vec![
        TraceAction::new(A, TraceActionKind::Emission, msg(M)),
        TraceAction::new(B, TraceActionKind::Reception, msg(M)),
        TraceAction::new(C, TraceActionKind::Reception, msg(M)),
        TraceAction::new(B, TraceActionKind::Reception, msg(N)),
    ]
    .into_iter()
    .collect();
    assert_eq!(got, expected);
    assert_eq!(i.get_all_trace_actions().len(), 4);
}

#[test]
fn atomic_actions_are_counted_by_the_flags() {
    let i = seq(
        emit(A, M, vec![B, C]),
        alt(emit(A, M, vec![B]), seq(recv(N, vec![B]), lp(emit(C, N, vec![])))),
    );
    assert_eq!(i.get_atomic_actions_number(false, true), 3 + 2 + 1 + 1);
    assert_eq!(i.get_atomic_actions_number(false, false), 3 + 2 + 1);
    assert_eq!(i.get_atomic_actions_number(true, true), 3 + 2);
    assert_eq!(i.get_atomic_actions_number(true, false), 3 + 2);
    assert_eq!(Interaction::Empty.get_atomic_actions_number(true, true), 0);
}

#[test]
fn simplified_choice_drops_empty_branches_beside_a_loop() {
    let l = lp(emit(A, M, vec![]));
    let x = emit(B, M, vec![]);
    let simplify_alt = InteractionSyntacticSimplifier::simplify_alt;
    assert_eq!(simplify_alt(Interaction::Empty, Interaction::Empty), Interaction::Empty);
    assert_eq!(simplify_alt(Interaction::Empty, l.clone()), l);
    assert_eq!(simplify_alt(l.clone(), Interaction::Empty), l);
    assert_eq!(simplify_alt(Interaction::Empty, x.clone()), alt(Interaction::Empty, x.clone()));
    assert_eq!(simplify_alt(x.clone(), Interaction::Empty), alt(x.clone(), Interaction::Empty));
    assert_eq!(simplify_alt(l.clone(), x.clone()), alt(l, x));
}

#[test]
fn simplified_sequence_drops_an_empty_operand() {
    let x = emit(A, M, vec![]);
    let y = emit(B, M, vec![]);
    let simplify_coreg = InteractionSyntacticSimplifier::simplify_coreg;
    assert_eq!(simplify_coreg(vec![A], Interaction::Empty, y.clone()), y);
    assert_eq!(simplify_coreg(vec![A], x.clone(), Interaction::Empty), x);
    assert_eq!(
        simplify_coreg(vec![A], x.clone(), y.clone()),
        Interaction::CoReg(vec![A], Box::new(x), Box::new(y))
    );
    assert_eq!(simplify_coreg(vec![], Interaction::Empty, Interaction::Empty), Interaction::Empty);
}

#[test]
fn simplified_loop_keeps_the_smaller_co_region() {
    let x = emit(A, M, vec![]);
    let simplify_loop = InteractionSyntacticSimplifier::simplify_loop;
    assert_eq!(simplify_loop(vec![A], Interaction::Empty), Interaction::Empty);
    assert_eq!(
        simplify_loop(vec![A], x.clone()),
        Interaction::Loop(vec![A], Box::new(x.clone()))
    );
    let inner = |cr: Vec<usize>| Interaction::Loop(cr, Box::new(x.clone()));
    assert_eq!(simplify_loop(vec![A], inner(vec![A, B])), inner(vec![A]));
    assert_eq!(simplify_loop(vec![A, B], inner(vec![B])), inner(vec![B]));
    assert_eq!(simplify_loop(vec![], inner(vec![])), inner(vec![]));
    assert_eq!(
        simplify_loop(vec![A], inner(vec![B])),
        Interaction::Loop(vec![A], Box::new(inner(vec![B])))
    );
    assert!(InteractionSyntacticSimplifier::cr_inclusion(&vec![A], &vec![B, A]));
    assert!(!InteractionSyntacticSimplifier::cr_inclusion(&vec![A, C], &vec![B, A]));
}

#[test]
fn simplified_synchronisation_stays_only_where_the_map_expects_an_action() {
    let ctx = table();
    let x = emit(A, M, vec![]);
    let y = emit(B, N, vec![]);
    let simplify_sync = InteractionSyntacticSimplifier::simplify_sync;
    let on_a = sync_on(A, TraceActionKind::Emission, M);
    assert_eq!(
        simplify_sync(on_a.clone(), x.clone(), y.clone(), &ctx),
        sync(on_a.clone(), x.clone(), y.clone())
    );
    assert_eq!(
        simplify_sync(on_a.clone(), x.clone(), Interaction::Empty, &ctx),
        sync(on_a.clone(), x.clone(), Interaction::Empty)
    );
    // same lifeline and kind, but another message: nothing to meet on
    let on_other = sync_on(A, TraceActionKind::Emission, N);
    assert_eq!(
        simplify_sync(on_other.clone(), x.clone(), y.clone(), &ctx),
        Interaction::CoReg(vec![A, B, C], Box::new(x.clone()), Box::new(y.clone()))
    );
    assert_eq!(simplify_sync(on_other.clone(), Interaction::Empty, y.clone(), &ctx), y);
    assert_eq!(simplify_sync(on_other.clone(), x.clone(), Interaction::Empty, &ctx), x);
    assert_eq!(
        simplify_sync(on_other, Interaction::Empty, Interaction::Empty, &ctx),
        Interaction::Empty
    );
    // same lifeline, but the other kind of action
    let on_reception = sync_on(A, TraceActionKind::Reception, M);
    assert_eq!(simplify_sync(on_reception, x.clone(), Interaction::Empty, &ctx), x);
}

#[test]
fn prune_keeps_the_branches_that_avoid_the_lifelines() {
    let ctx = table();
    let with_a = emit(A, M, vec![B]);
    let with_c = emit(C, M, vec![B]);
    let no_a = set(&[A]);
    assert_eq!(Interaction::Empty.prune(&no_a, &ctx), Interaction::Empty);
    assert_eq!(with_a.prune(&no_a, &ctx), with_a);
    assert_eq!(alt(with_a.clone(), with_c.clone()).prune(&no_a, &ctx), with_c);
    assert_eq!(alt(with_c.clone(), with_a.clone()).prune(&no_a, &ctx), with_c);
    assert_eq!(
        alt(with_c.clone(), with_c.clone()).prune(&no_a, &ctx),
        alt(with_c.clone(), with_c.clone())
    );
    // no branch avoids the lifeline: the second is taken
    assert_eq!(alt(with_a.clone(), emit(A, N, vec![])).prune(&no_a, &ctx), emit(A, N, vec![]));
    assert_eq!(lp(with_a.clone()).prune(&no_a, &ctx), Interaction::Empty);
    assert_eq!(lp(with_c.clone()).prune(&no_a, &ctx), lp(with_c.clone()));
    assert_eq!(lp(lp(with_a.clone())).prune(&no_a, &ctx), Interaction::Empty);
    assert_eq!(
        seq(lp(with_a.clone()), with_c.clone()).prune(&no_a, &ctx),
        with_c
    );
    assert_eq!(
        seq(alt(with_a.clone(), Interaction::Empty), lp(with_a.clone())).prune(&no_a, &ctx),
        Interaction::Empty
    );
    let map = sync_on(C, TraceActionKind::Emission, M);
    assert_eq!(
        sync(map.clone(), lp(with_a.clone()), with_c.clone()).prune(&no_a, &ctx),
        sync(map, Interaction::Empty, with_c)
    );
}

#[test]
fn prune_twice_is_prune_once() {
    let ctx = table();
    let with_a = emit(A, M, vec![B]);
    let with_c = emit(C, M, vec![B]);
    let terms = vec![
        alt(with_a.clone(), with_c.clone()),
        seq(lp(alt(with_a.clone(), with_c.clone())), alt(lp(with_a.clone()), with_c.clone())),
        lp(seq(with_c.clone(), alt(with_a.clone(), Interaction::Empty))),
        sync(
            sync_on(C, TraceActionKind::Emission, M),
            alt(with_a.clone(), with_c.clone()),
            lp(with_a.clone()),
        ),
        with_a.clone(),
    ];
    for t in terms {
        let once = t.prune(&set(&[A]), &ctx);
        assert_eq!(once.prune(&set(&[A]), &ctx), once);
    }
}

#[test]
fn pruned_term_avoids_the_lifelines_if_the_term_did() {
    let ctx = table();
    let with_a = emit(A, M, vec![B]);
    let with_c = emit(C, M, vec![B]);
    let gone = set(&[A]);
    let terms = vec![
        alt(with_a.clone(), with_c.clone()),
        seq(lp(with_a.clone()), alt(with_c.clone(), lp(with_a.clone()))),
        lp(with_a.clone()),
    ];
    for t in terms {
        assert!(t.avoids_all_of(&gone));
        let pruned = t.prune(&gone, &ctx);
        assert!(pruned.avoids_all_of(&gone));
        assert!(!pruned.involves_any_of(&gone));
    }
    // an action that involves the lifeline stays as it is
    assert!(!with_a.prune(&gone, &ctx).avoids_all_of(&gone));
}

#[test]
fn elimination_takes_lifelines_out_of_every_action() {
    let ctx = table();
    let gone = set(&[A]);
    assert_eq!(emit(A, M, vec![B, C]).eliminate_lifelines(&gone, &ctx), recv(M, vec![B, C]));
    assert_eq!(emit(B, M, vec![A, C]).eliminate_lifelines(&gone, &ctx), emit(B, M, vec![C]));
    assert_eq!(emit(A, M, vec![A]).eliminate_lifelines(&gone, &ctx), Interaction::Empty);
    assert_eq!(recv(M, vec![A]).eliminate_lifelines(&gone, &ctx), Interaction::Empty);
    assert_eq!(
        seq(emit(A, M, vec![]), emit(B, M, vec![A])).eliminate_lifelines(&gone, &ctx),
        emit(B, M, vec![])
    );
    assert_eq!(
        alt(emit(A, M, vec![]), lp(emit(B, M, vec![A]))).eliminate_lifelines(&gone, &ctx),
        lp(emit(B, M, vec![]))
    );
    assert_eq!(lp(emit(A, M, vec![])).eliminate_lifelines(&gone, &ctx), Interaction::Empty);
    assert_eq!(
        lp(emit(A, M, vec![B])).eliminate_lifelines(&gone, &ctx),
        lp(recv(M, vec![B]))
    );
    assert_eq!(
        Interaction::Loop(vec![A], Box::new(lp(emit(B, M, vec![]))))
            .eliminate_lifelines(&gone, &ctx),
        lp(emit(B, M, vec![]))
    );
    let map = sync_on(A, TraceActionKind::Emission, M);
    assert_eq!(
        sync(map, emit(A, M, vec![B]), emit(C, N, vec![])).eliminate_lifelines(&gone, &ctx),
        Interaction::CoReg(
            vec![A, B, C],
            Box::new(recv(M, vec![B])),
            Box::new(emit(C, N, vec![]))
        )
    );
}

#[test]
fn synchronisation_map_keeps_its_entries_in_the_order_of_the_keys() {
    let mut map = SyncMap::new();
    assert_eq!(map.len(), 0);
    map.insert(B, TraceActionKind::Reception, msg(M));
    map.insert(C, TraceActionKind::Emission, msg(M));
    map.insert(A, TraceActionKind::Reception, msg(N));
    map.insert(A, TraceActionKind::Emission, msg(M));
    map.insert(B, TraceActionKind::Reception, msg(N));
    assert_eq!(map.len(), 4);
    let keys: Vec<(usize, TraceActionKind)> =
        (0..map.len()).map(|i| (map.entry(i).lf_id, map.entry(i).act_kind)).collect();
    assert_eq!(
        keys,
        vec![
            (A, TraceActionKind::Emission),
            (C, TraceActionKind::Emission),
            (A, TraceActionKind::Reception),
            (B, TraceActionKind::Reception),
        ]
    );
    assert_eq!(map.get(B, TraceActionKind::Reception), Some(&msg(N)));
    assert_eq!(map.get(A, TraceActionKind::Emission), Some(&msg(M)));
    assert_eq!(map.get(B, TraceActionKind::Emission), None);
    let mut other = SyncMap::new();
    other.insert(A, TraceActionKind::Emission, msg(M));
    other.insert(A, TraceActionKind::Reception, msg(N));
    other.insert(B, TraceActionKind::Reception, msg(N));
    other.insert(C, TraceActionKind::Emission, msg(M));
    assert!(map.same_as(&other));
    assert_eq!(map, other);
    other.insert(C, TraceActionKind::Emission, msg(N));
    assert!(!map.same_as(&other));
}

#[test]
fn nests_of_one_operator_are_flattened_and_folded_back() {
    let x = emit(A, M, vec![]);
    let y = emit(B, M, vec![]);
    let z = emit(C, M, vec![]);
    let nest = alt(alt(x.clone(), y.clone()), seq(z.clone(), x.clone()));
    let mut frags = get_recursive_alt_frags(&nest);
    assert_eq!(frags, vec![&x, &y, &seq(z.clone(), x.clone())]);
    assert_eq!(
        fold_recursive_alt_frags(&mut frags),
        alt(x.clone(), alt(y.clone(), seq(z.clone(), x.clone())))
    );
    assert!(frags.is_empty());
    assert_eq!(fold_recursive_alt_frags(&mut vec![]), Interaction::Empty);
    assert_eq!(fold_recursive_alt_frags(&mut vec![&x]), x);

    let cr = vec![A];
    let with = |i1: Interaction, i2: Interaction| Interaction::CoReg(vec![A], Box::new(i1), Box::new(i2));
    let nest = with(with(x.clone(), y.clone()), seq(z.clone(), x.clone()));
    let mut frags = get_recursive_coreg_frags(&cr, &nest);
    assert_eq!(frags, vec![&x, &y, &seq(z.clone(), x.clone())]);
    assert_eq!(
        fold_recursive_coreg_frags(&cr, &mut frags),
        with(x.clone(), with(y.clone(), seq(z.clone(), x.clone())))
    );
    assert_eq!(get_recursive_coreg_frags(&vec![B], &nest), vec![&nest]);

    let map = sync_on(A, TraceActionKind::Emission, M);
    let other = sync_on(B, TraceActionKind::Emission, M);
    let nest = sync(map.clone(), x.clone(), sync(map.clone(), y.clone(), sync(other.clone(), z.clone(), x.clone())));
    let mut frags = get_recursive_sync_frags(&map, &nest);
    assert_eq!(frags, vec![&x, &y, &sync(other.clone(), z.clone(), x.clone())]);
    assert_eq!(fold_recursive_sync_frags(&map, &mut frags), nest);

    let mut subs = vec![x.clone(), y.clone(), z.clone()];
    assert_eq!(
        fold_interactions_in_binary_operator(&BinaryOperatorKind::Alt, &mut subs),
        alt(x.clone(), alt(y.clone(), z.clone()))
    );
    assert!(subs.is_empty());
    let mut subs = vec![x.clone()];
    assert_eq!(
        fold_interactions_in_binary_operator(&BinaryOperatorKind::CoReg(vec![B]), &mut subs),
        x
    );
    let mut subs = vec![x.clone(), y.clone()];
    assert_eq!(
        fold_interactions_in_binary_operator(&BinaryOperatorKind::Sync(map.clone()), &mut subs),
        sync(map, x, y)
    );
}
