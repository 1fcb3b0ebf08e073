use hibou_label::context::{GeneralContext, HibouCoreError};
use hibou_label::message::MessageTypeExpression;
use hibou_label::sets::{
    set_copy, set_difference, set_disjoint, set_equal, set_intersection, set_is_subset,
    set_of_vec, set_single, set_sole_element, set_union,
};
use std::collections::HashSet;

fn set(ids: &[usize]) -> HashSet<usize> {
    ids.iter().cloned().collect()
}

fn single(m: usize) -> MessageTypeExpression {
    MessageTypeExpression::Singleton(m)
}

fn named(t: usize) -> MessageTypeExpression {
    MessageTypeExpression::NamedType(t)
}

fn union(a: MessageTypeExpression, b: MessageTypeExpression) -> MessageTypeExpression {
    MessageTypeExpression::Union(Box::new(a), Box::new(b))
}

fn inter(a: MessageTypeExpression, b: MessageTypeExpression) -> MessageTypeExpression {
    MessageTypeExpression::Intersection(Box::new(a), Box::new(b))
}

fn minus(a: MessageTypeExpression, b: MessageTypeExpression) -> MessageTypeExpression {
    MessageTypeExpression::SetMinus(Box::new(a), Box::new(b))
}

/// Messages `m0` to `m5`, and the types `t1 = {1, 2, 5}` and `t2 = {2, 3}`.
fn table() -> GeneralContext {
    let mut ctx = GeneralContext::new();
    for k in 0..6 {
        assert_eq!(ctx.add_msg(format!("m{}", k)), k);
    }
    assert_eq!(ctx.add_mt("t1".to_string(), set(&[1, 2, 5])), 0);
    assert_eq!(ctx.add_mt("t2".to_string(), set(&[2, 3])), 1);
    ctx
}

#[test]
fn identifiers_are_dense_and_stable() {
    let mut ctx = GeneralContext::new();
    assert_eq!(ctx.get_lf_num(), 0);
    assert_eq!(ctx.add_lf("a".to_string()), 0);
    assert_eq!(ctx.add_lf("b".to_string()), 1);
    assert_eq!(ctx.add_lf("a".to_string()), 0);
    assert_eq!(ctx.get_lf_num(), 2);
    assert_eq!(ctx.add_msg("m".to_string()), 0);
    assert_eq!(ctx.add_msg("m".to_string()), 0);
    assert_eq!(ctx.add_msg("n".to_string()), 1);
    assert_eq!(ctx.get_ms_num(), 2);
    assert_eq!(ctx.add_mt("t".to_string(), set(&[0])), 0);
    assert_eq!(ctx.add_mt("t".to_string(), set(&[1])), 0);
    assert_eq!(ctx.get_mt_num(), 1);
    assert_eq!(ctx.get_mt_messages(0), Ok(set(&[0])));
}

#[test]
fn names_are_found_by_identifier_and_back() {
    let mut ctx = GeneralContext::new();
    ctx.add_lf("a".to_string());
    ctx.add_lf("b".to_string());
    ctx.add_msg("m".to_string());
    ctx.add_mt("t".to_string(), set(&[0]));
    assert_eq!(ctx.get_lf_id("b"), Some(1));
    assert_eq!(ctx.get_lf_id("c"), None);
    assert_eq!(ctx.get_ms_id("m"), Some(0));
    assert_eq!(ctx.get_ms_id("a"), None);
    assert_eq!(ctx.get_mt_id("t"), Some(0));
    assert_eq!(ctx.get_mt_id("m"), None);
    assert_eq!(ctx.get_lf_name(1), Ok("b".to_string()));
    assert_eq!(ctx.get_ms_name(0), Ok("m".to_string()));
    assert_eq!(ctx.get_mt_name(0), Ok("t".to_string()));
    assert_eq!(ctx.get_all_lfs_ids(), set(&[0, 1]));
}

#[test]
fn unknown_identifiers_give_typed_errors() {
    let ctx = GeneralContext::new();
    assert_eq!(ctx.get_lf_name(3), Err(HibouCoreError::UnknownLifeline(3)));
    assert_eq!(ctx.get_ms_name(4), Err(HibouCoreError::UnknownMessage(4)));
    assert_eq!(ctx.get_mt_name(5), Err(HibouCoreError::UnknownMessageType(5)));
    assert_eq!(ctx.get_mt_messages(0), Err(HibouCoreError::UnknownMessageType(0)));
    assert_eq!(ctx.get_all_lfs_ids(), set(&[]));
}

#[test]
fn set_operations_follow_set_algebra() {
    let a = set(&[1, 2, 3]);
    let b = set(&[3, 4]);
    assert_eq!(set_copy(&a), a);
    assert_eq!(set_single(7), set(&[7]));
    assert_eq!(set_of_vec(&vec![2, 1, 2]), set(&[1, 2]));
    assert_eq!(set_union(&a, &b), set(&[1, 2, 3, 4]));
    assert_eq!(set_intersection(&a, &b), set(&[3]));
    assert_eq!(set_difference(&a, &b), set(&[1, 2]));
    assert!(set_is_subset(&set(&[1, 3]), &a));
    assert!(!set_is_subset(&b, &a));
    assert!(set_equal(&a, &set(&[3, 2, 1])));
    assert!(!set_equal(&a, &b));
    assert!(set_disjoint(&set(&[1, 2]), &b));
    assert!(!set_disjoint(&a, &b));
    assert_eq!(set_sole_element(&set(&[9])), Some(9));
    assert_eq!(set_sole_element(&set(&[])), None);
    assert_eq!(set_sole_element(&a), None);
}

#[test]
fn resolve_applies_the_set_operations() {
    let ctx = table();
    assert_eq!(single(4).resolve(&ctx), set(&[4]));
    assert_eq!(named(0).resolve(&ctx), set(&[1, 2, 5]));
    assert_eq!(union(named(0), named(1)).resolve(&ctx), set(&[1, 2, 3, 5]));
    assert_eq!(inter(named(0), named(1)).resolve(&ctx), set(&[2]));
    assert_eq!(minus(named(0), named(1)).resolve(&ctx), set(&[1, 5]));
    assert_eq!(minus(named(1), named(1)).resolve(&ctx), set(&[]));
}

#[test]
fn simplify_keeps_atoms() {
    let ctx = table();
    assert_eq!(single(3).simplify(&ctx), single(3));
    assert_eq!(named(1).simplify(&ctx), named(1));
}

#[test]
fn simplify_collapses_to_a_singleton() {
    let ctx = table();
    assert_eq!(inter(named(0), named(1)).simplify(&ctx), single(2));
    assert_eq!(minus(named(1), single(3)).simplify(&ctx), single(2));
}

#[test]
fn simplify_collapses_to_the_first_named_type() {
    let mut ctx = table();
    assert_eq!(ctx.add_mt("t3".to_string(), set(&[2, 3])), 2);
    assert_eq!(union(single(2), single(3)).simplify(&ctx), named(1));
    assert_eq!(minus(named(0), single(4)).simplify(&ctx), named(0));
}

#[test]
fn simplify_folds_unions_to_the_right_without_repetition() {
    let ctx = table();
    let e = union(union(single(1), single(3)), union(single(3), single(4)));
    assert_eq!(e.simplify(&ctx), union(single(1), union(single(3), single(4))));
}

#[test]
fn simplify_folds_intersections_to_the_right_without_repetition() {
    let mut ctx = GeneralContext::new();
    ctx.add_mt("a".to_string(), set(&[1, 2, 3, 4]));
    ctx.add_mt("b".to_string(), set(&[2, 3, 4, 5]));
    ctx.add_mt("c".to_string(), set(&[3, 4, 5, 6]));
    let e = inter(inter(named(0), named(1)), inter(named(1), named(2)));
    assert_eq!(e.clone().resolve(&ctx), set(&[3, 4]));
    assert_eq!(e.simplify(&ctx), inter(named(0), inter(named(1), named(2))));
}

#[test]
fn simplify_of_a_difference_of_disjoint_operands_is_the_minuend() {
    let ctx = table();
    let e = minus(union(single(1), single(3)), single(4));
    assert_eq!(e.simplify(&ctx), union(single(1), single(3)));
}

#[test]
fn simplify_cancels_the_fragments_of_the_minuend_within_the_subtrahend() {
    let ctx = table();
    let e = minus(union(named(0), named(1)), union(named(1), single(4)));
    assert_eq!(e.clone().resolve(&ctx), set(&[1, 5]));
    let simplified = e.simplify(&ctx);
    // `t2` leaves the minuend and stays in the subtrahend: message 2 of
    // `t1` is still taken away
    assert_eq!(simplified, minus(named(0), union(named(1), single(4))));
    assert_eq!(simplified.resolve(&ctx), set(&[1, 5]));
}

#[test]
fn simplify_of_a_difference_keeps_the_set() {
    let mut ctx = GeneralContext::new();
    for k in 0..4 {
        ctx.add_msg(format!("m{}", k));
    }
    assert_eq!(ctx.add_mt("T0".to_string(), set(&[0, 1])), 0);
    assert_eq!(ctx.add_mt("T1".to_string(), set(&[1, 2, 3])), 1);
    let e = minus(union(named(0), named(1)), named(0));
    assert_eq!(e.clone().resolve(&ctx), set(&[2, 3]));
    let simplified = e.simplify(&ctx);
    assert_eq!(simplified, minus(named(1), named(0)));
    assert_eq!(simplified.resolve(&ctx), set(&[2, 3]));
    // what is left of the minuend no longer meets the subtrahend
    let e = minus(union(named(0), single(7)), union(named(0), single(8)));
    assert_eq!(e.simplify(&ctx), single(7));
    let e = minus(union(named(0), union(single(7), single(9))), union(named(0), single(8)));
    assert_eq!(e.simplify(&ctx), union(single(7), single(9)));
    // what is left of the minuend has a shorter name
    let mut ctx = GeneralContext::new();
    assert_eq!(ctx.add_mt("U0".to_string(), set(&[1, 2, 3])), 0);
    assert_eq!(ctx.add_mt("U1".to_string(), set(&[0, 1, 2])), 1);
    let a = union(single(0), union(minus(named(0), single(3)), single(5)));
    let e = minus(a.clone(), union(single(5), single(2)));
    assert_eq!(e.clone().resolve(&ctx), set(&[0, 1]));
    assert_eq!(a.simplify(&ctx), union(single(0), union(minus(named(0), single(3)), single(5))));
    let simplified = e.simplify(&ctx);
    assert_eq!(simplified, minus(named(1), union(single(5), single(2))));
    assert_eq!(simplified.clone().resolve(&ctx), set(&[0, 1]));
    assert_eq!(simplified.clone().simplify(&ctx), simplified);
}

#[test]
fn simplify_with_nothing_left_of_the_subtrahend_is_the_folded_minuend() {
    let ctx = table();
    let e = minus(union(single(0), union(single(1), named(1))), named(1));
    assert_eq!(e.clone().resolve(&ctx), set(&[0, 1]));
    assert_eq!(e.simplify(&ctx), union(single(0), single(1)));
}

#[test]
fn operands_without_messages_leave_a_union() {
    let ctx = table();
    let nothing = minus(named(0), union(named(0), single(4)));
    assert_eq!(nothing.clone().resolve(&ctx), set(&[]));
    assert_eq!(nothing.clone().get_recursive_msg_union(&ctx), vec![]);
    let e = union(nothing.clone(), union(single(3), union(inter(single(1), single(2)), single(4))));
    assert_eq!(e.clone().resolve(&ctx), set(&[3, 4]));
    assert_eq!(e.clone().get_recursive_msg_union(&ctx), vec![single(3), single(4)]);
    assert_eq!(e.simplify(&ctx), union(single(3), single(4)));
    // a subtrahend without messages takes nothing away
    let e = minus(union(single(3), single(4)), nothing);
    assert_eq!(e.simplify(&ctx), union(single(3), single(4)));
}

#[test]
fn simplify_keeps_the_resolved_set_without_difference() {
    let ctx = table();
    let exprs = vec![
        union(named(0), named(1)),
        inter(union(named(0), single(4)), union(named(1), single(4))),
        union(inter(named(0), named(1)), single(5)),
        union(union(single(0), single(1)), union(named(1), single(0))),
    ];
    for e in exprs {
        let before = e.resolve(&ctx);
        let simplified = e.simplify(&ctx);
        assert_eq!(simplified.resolve(&ctx), before);
    }
}

#[test]
fn union_fragments_are_simplified_and_unique() {
    let ctx = table();
    let e = union(union(single(1), inter(named(0), named(1))), union(single(1), single(2)));
    assert_eq!(e.get_recursive_msg_union(&ctx), vec![single(1), single(2)]);
    assert_eq!(named(0).get_recursive_msg_union(&ctx), vec![named(0)]);
}

#[test]
fn intersection_fragments_are_simplified_and_unique() {
    let ctx = table();
    let e = inter(inter(named(0), named(1)), named(0));
    assert_eq!(e.get_recursive_msg_inter(&ctx), vec![named(0), named(1)]);
    // an operand that is no intersection is simplified
    let e = inter(union(single(2), single(3)), minus(named(0), single(7)));
    assert_eq!(e.get_recursive_msg_inter(&ctx), vec![named(1), named(0)]);
    let e = inter(named(0), named(0));
    assert_eq!(e.get_recursive_msg_inter(&ctx), vec![named(0)]);
    assert_eq!(single(4).get_recursive_msg_inter(&ctx), vec![single(4)]);
}

#[test]
fn a_nest_has_its_operands_and_an_expression_its_shorter_name() {
    let ctx = table();
    let e = union(union(single(1), inter(single(2), single(3))), union(single(1), named(0)));
    assert_eq!(
        e.into_union_leaves(),
        vec![single(1), inter(single(2), single(3)), single(1), named(0)]
    );
    assert_eq!(single(1).into_union_leaves(), vec![single(1)]);
    let e = inter(named(0), inter(union(single(1), single(2)), named(0)));
    assert_eq!(e.into_inter_leaves(), vec![named(0), union(single(1), single(2)), named(0)]);
    assert_eq!(named(1).into_inter_leaves(), vec![named(1)]);
    assert_eq!(union(single(2), single(3)).shorter_name(&ctx), Some(named(1)));
    assert_eq!(inter(named(0), named(1)).shorter_name(&ctx), Some(single(2)));
    assert_eq!(union(single(1), single(3)).shorter_name(&ctx), None);
    assert_eq!(named(1).shorter_name(&ctx), None);
    assert_eq!(single(2).shorter_name(&ctx), None);
}

#[test]
fn folding_nests_to_the_right_and_empties_the_list() {
    let mut frags = vec![single(1), single(2), single(3)];
    let folded = MessageTypeExpression::fold_recursive_msg_unions(&mut frags);
    assert_eq!(folded, union(single(1), union(single(2), single(3))));
    assert!(frags.is_empty());
    let mut frags = vec![single(1), single(2)];
    let folded = MessageTypeExpression::fold_recursive_msg_inters(&mut frags);
    assert_eq!(folded, inter(single(1), single(2)));
    assert!(frags.is_empty());
    let mut frags = vec![named(0)];
    assert_eq!(MessageTypeExpression::fold_recursive_msg_unions(&mut frags), named(0));
    let mut frags = vec![named(0)];
    assert_eq!(MessageTypeExpression::fold_recursive_msg_inters(&mut frags), named(0));
}

#[test]
fn simplifying_twice_is_simplifying_once() {
    let ctx = table();
    // the operands of a nest are taken one by one: that `m2 ∪ m3` is a
    // named type does not count
    let e = union(union(single(1), single(4)), union(single(2), single(3)));
    let once = e.clone().simplify(&ctx);
    assert_eq!(once, union(single(1), union(single(4), union(single(2), single(3)))));
    assert_eq!(once.clone().simplify(&ctx), once);
    assert_eq!(once.resolve(&ctx), e.resolve(&ctx));
    let atom = inter(named(0), named(1)).simplify(&ctx);
    assert_eq!(atom.clone().simplify(&ctx), atom);
    let exprs = vec![
        minus(union(named(0), named(1)), union(named(1), single(4))),
        minus(union(named(0), single(4)), union(single(2), single(3))),
        inter(union(named(0), single(4)), union(named(1), single(4))),
        union(minus(named(0), single(2)), inter(named(1), union(single(3), single(0)))),
        minus(union(single(0), union(named(0), single(3))), named(1)),
    ];
    for e in exprs {
        let before = e.resolve(&ctx);
        let once = e.simplify(&ctx);
        assert_eq!(once.resolve(&ctx), before);
        assert_eq!(once.clone().simplify(&ctx), once);
    }
}

#[test]
fn a_nest_of_intersections_is_simplified_at_once() {
    let mut ctx = GeneralContext::new();
    for k in 0..7 {
        ctx.add_msg(format!("m{}", k));
    }
    ctx.add_mt("T0".to_string(), set(&[0, 1, 2]));
    ctx.add_mt("T1".to_string(), set(&[0, 1, 3]));
    ctx.add_mt("T2".to_string(), set(&[0, 1, 4, 5]));
    ctx.add_mt("T3".to_string(), set(&[0, 1, 4, 6]));
    ctx.add_mt("T4".to_string(), set(&[0, 1, 4]));
    let e = inter(inter(named(0), named(1)), inter(named(2), named(3)));
    let s = e.simplify(&ctx);
    assert_eq!(s, inter(named(0), inter(named(1), inter(named(2), named(3)))));
    assert_eq!(s.clone().simplify(&ctx), s);
    assert_eq!(s.resolve(&ctx), set(&[0, 1]));
}

#[test]
fn expressions_are_checked_against_the_table() {
    let ctx = table();
    assert!(single(77).is_well_formed(&ctx));
    assert!(named(1).is_well_formed(&ctx));
    assert!(!named(2).is_well_formed(&ctx));
    assert!(minus(named(0), union(single(1), named(1))).is_well_formed(&ctx));
    assert!(!minus(named(0), union(single(1), named(5))).is_well_formed(&ctx));
    let copy = ctx.clone();
    assert_eq!(copy.get_ms_num(), 6);
    assert_eq!(copy.get_mt_messages(1), Ok(set(&[2, 3])));
    assert_eq!(copy.get_mt_name(0), Ok("t1".to_string()));
}
