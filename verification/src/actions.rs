//! The actions that a term can ever show, and how many there are.

use crate::action::BroadcastView;
use crate::context::ContextView;
use crate::interaction::{max_nat, Interaction, Term};
use crate::trace::{TraceAction, TraceActionKind};
use vstd::prelude::*;

verus! {

impl BroadcastView {
    /// The emission by the origin, if any, and a reception by each target.
    pub open spec fn trace_actions(self) -> Set<TraceAction> {
        Set::new(
            |a: TraceAction|
                a.message == self.message_type && ((self.origin == Some(a.lf_id) && a.act_kind
                    is Emission) || (self.targets.contains(a.lf_id) && a.act_kind is Reception)),
        )
    }
}

impl Term {
    /// Every action that occurs in the term.
    pub open spec fn trace_actions(self) -> Set<TraceAction>
        decreases self,
    {
        match self {
            Term::Empty => Set::empty(),
            Term::Action(bp) => bp.trace_actions(),
            Term::CoReg(_, t1, t2) => t1.trace_actions().union(t2.trace_actions()),
            Term::Loop(_, t1) => t1.trace_actions(),
            Term::Alt(t1, t2) => t1.trace_actions().union(t2.trace_actions()),
            Term::Sync(_, t1, t2) => t1.trace_actions().union(t2.trace_actions()),
        }
    }

    /// The number of atomic actions of the term. The two branches of a
    /// choice count by their maximum or by their sum, and the body of a
    /// loop counts or not, as the flags say.
    pub open spec fn atomic_actions_number(self, max_of_alt: bool, count_in_loops: bool) -> nat
        decreases self,
    {
        match self {
            Term::Empty => 0,
            Term::Action(bp) => bp.actions_number(),
            Term::CoReg(_, t1, t2) => t1.atomic_actions_number(max_of_alt, count_in_loops)
                + t2.atomic_actions_number(max_of_alt, count_in_loops),
            Term::Alt(t1, t2) => if max_of_alt {
                max_nat(
                    t1.atomic_actions_number(max_of_alt, count_in_loops),
                    t2.atomic_actions_number(max_of_alt, count_in_loops),
                )
            } else {
                t1.atomic_actions_number(max_of_alt, count_in_loops) + t2.atomic_actions_number(
                    max_of_alt,
                    count_in_loops,
                )
            },
            Term::Loop(_, t1) => if count_in_loops {
                t1.atomic_actions_number(max_of_alt, count_in_loops)
            } else {
                0
            },
            Term::Sync(_, t1, t2) => t1.atomic_actions_number(max_of_alt, count_in_loops)
                + t2.atomic_actions_number(max_of_alt, count_in_loops),
        }
    }
}

/// The actions of a well-formed term are well formed.
pub proof fn lemma_trace_actions_well_formed(t: Term, ctx: ContextView, a: TraceAction)
    requires
        t.well_formed(ctx),
        t.trace_actions().contains(a),
    ensures
        a.well_formed(ctx),
    decreases t,
{
    match t {
        Term::CoReg(_, t1, t2) => {
            if t1.trace_actions().contains(a) {
                lemma_trace_actions_well_formed(*t1, ctx, a);
            } else {
                lemma_trace_actions_well_formed(*t2, ctx, a);
            }
        },
        Term::Alt(t1, t2) => {
            if t1.trace_actions().contains(a) {
                lemma_trace_actions_well_formed(*t1, ctx, a);
            } else {
                lemma_trace_actions_well_formed(*t2, ctx, a);
            }
        },
        Term::Sync(_, t1, t2) => {
            if t1.trace_actions().contains(a) {
                lemma_trace_actions_well_formed(*t1, ctx, a);
            } else {
                lemma_trace_actions_well_formed(*t2, ctx, a);
            }
        },
        Term::Loop(_, t1) => {
            lemma_trace_actions_well_formed(*t1, ctx, a);
        },
        _ => {},
    }
}

fn holds_action(v: &Vec<TraceAction>, a: &TraceAction) -> (r: bool)
    ensures
        r == v@.contains(*a),
{
    let mut i: usize = 0;
    while i < v.len()
        invariant
            i <= v.len(),
            forall|j: int| 0 <= j < i ==> v@[j] != *a,
        decreases v.len() - i,
    {
        if v[i] == *a {
            return true;
        }
        i += 1;
    }
    false
}

/// Adds an action to a list unless the list holds it.
pub fn push_if_absent(v: &mut Vec<TraceAction>, a: TraceAction)
    ensures
        final(v)@.to_set() == old(v)@.to_set().insert(a),
        old(v)@.no_duplicates() ==> final(v)@.no_duplicates(),
        final(v)@ == if old(v)@.contains(a) {
            old(v)@
        } else {
            old(v)@.push(a)
        },
{
    if !holds_action(v, &a) {
        proof {
            old(v)@.lemma_push_to_set_commute(a);
        }
        v.push(a);
    } else {
        proof {
            assert(old(v)@.to_set().contains(a));
            assert(old(v)@.to_set().insert(a) =~= old(v)@.to_set());
        }
    }
}

/// Adds to `dst` the actions of `src` that it does not hold yet.
pub fn extend_absent(dst: &mut Vec<TraceAction>, src: &Vec<TraceAction>)
    ensures
        final(dst)@.to_set() == old(dst)@.to_set().union(src@.to_set()),
        old(dst)@.no_duplicates() ==> final(dst)@.no_duplicates(),
{
    let ghost orig = dst@;
    let mut i: usize = 0;
    proof {
        assert(src@.take(0).to_set() =~= Set::<TraceAction>::empty());
        assert(orig.to_set().union(Set::<TraceAction>::empty()) =~= orig.to_set());
    }
    while i < src.len()
        invariant
            i <= src.len(),
            dst@.to_set() == orig.to_set().union(src@.take(i as int).to_set()),
            orig.no_duplicates() ==> dst@.no_duplicates(),
        decreases src.len() - i,
    {
        proof {
            assert(src@.take(i + 1) =~= src@.take(i as int).push(src@[i as int]));
            src@.take(i as int).lemma_push_to_set_commute(src@[i as int]);
            assert(orig.to_set().union(src@.take(i as int).to_set()).insert(src@[i as int])
                =~= orig.to_set().union(src@.take(i as int).to_set().insert(src@[i as int])));
        }
        push_if_absent(dst, src[i].clone());
        i += 1;
    }
    proof {
        assert(src@.take(src.len() as int) =~= src@);
    }
}

impl Interaction {
    /// Every action that occurs in the term, each once.
    pub fn get_all_trace_actions(&self) -> (r: Vec<TraceAction>)
        ensures
            r@.to_set() == self@.trace_actions(),
            r@.no_duplicates(),
        decreases *self,
    {
        match self {
            Interaction::Empty => {
                let r: Vec<TraceAction> = Vec::new();
                proof {
                    assert(r@.to_set() =~= Set::<TraceAction>::empty());
                }
                r
            },
            Interaction::Action(bp) => {
                let mut acts: Vec<TraceAction> = Vec::new();
                let ghost emitted: Set<TraceAction> = match bp.origin_on_emission {
                    Some(o) => set![
                        TraceAction {
                            lf_id: o,
                            act_kind: TraceActionKind::Emission,
                            message: bp.message_type,
                        },
                    ],
                    None => Set::empty(),
                };
                proof {
                    assert(acts@.to_set() =~= Set::<TraceAction>::empty());
                }
                if let Some(origin) = bp.origin_on_emission {
                    push_if_absent(
                        &mut acts,
                        TraceAction::new(origin, TraceActionKind::Emission, bp.message_type.clone()),
                    );
                }
                proof {
                    assert(acts@.to_set() =~= emitted);
                }
                let mut i: usize = 0;
                while i < bp.targets.len()
                    invariant
                        i <= bp.targets.len(),
                        acts@.no_duplicates(),
                        acts@.to_set() == emitted.union(
                            Set::new(
                                |a: TraceAction|
                                    a.message == bp.message_type && a.act_kind is Reception
                                        && bp.targets@.take(i as int).contains(a.lf_id),
                            ),
                        ),
                    decreases bp.targets.len() - i,
                {
                    let ghost before = acts@.to_set();
                    let ghost added = TraceAction {
                        lf_id: bp.targets@[i as int],
                        act_kind: TraceActionKind::Reception,
                        message: bp.message_type,
                    };
                    push_if_absent(
                        &mut acts,
                        TraceAction::new(
                            bp.targets[i],
                            TraceActionKind::Reception,
                            bp.message_type.clone(),
                        ),
                    );
                    proof {
                        let next = bp.targets@.take(i + 1);
                        let prev = bp.targets@.take(i as int);
                        assert(next =~= prev.push(bp.targets@[i as int]));
                        assert forall|a: TraceAction|
                            before.insert(added).contains(a) == emitted.union(
                                Set::new(
                                    |a: TraceAction|
                                        a.message == bp.message_type && a.act_kind is Reception
                                            && next.contains(a.lf_id),
                                ),
                            ).contains(a) by {
                            if prev.contains(a.lf_id) {
                                let j = choose|j: int| 0 <= j < prev.len() && prev[j] == a.lf_id;
                                assert(next[j] == a.lf_id);
                            }
                            if next.contains(a.lf_id) {
                                let j = choose|j: int| 0 <= j < next.len() && next[j] == a.lf_id;
                                if j < i {
                                    assert(prev[j] == a.lf_id);
                                }
                            }
                            assert(next[i as int] == bp.targets@[i as int]);
                        }
                        assert(acts@.to_set() =~= emitted.union(
                            Set::new(
                                |a: TraceAction|
                                    a.message == bp.message_type && a.act_kind is Reception
                                        && next.contains(a.lf_id),
                            ),
                        ));
                    }
                    i += 1;
                }
                proof {
                    assert(bp.targets@.take(bp.targets.len() as int) =~= bp.targets@);
                    assert(acts@.to_set() =~= bp@.trace_actions());
                }
                acts
            },
            Interaction::CoReg(_, i1, i2) => {
                let mut acts1 = i1.get_all_trace_actions();
                let acts2 = i2.get_all_trace_actions();
                extend_absent(&mut acts1, &acts2);
                acts1
            },
            Interaction::Alt(i1, i2) => {
                let mut acts1 = i1.get_all_trace_actions();
                let acts2 = i2.get_all_trace_actions();
                extend_absent(&mut acts1, &acts2);
                acts1
            },
            Interaction::Loop(_, i1) => i1.get_all_trace_actions(),
            Interaction::Sync(_, i1, i2) => {
                let mut acts1 = i1.get_all_trace_actions();
                let acts2 = i2.get_all_trace_actions();
                extend_absent(&mut acts1, &acts2);
                acts1
            },
        }
    }

    /// The number of atomic actions of the term: see
    /// `Term::atomic_actions_number`.
    pub fn get_atomic_actions_number(
        &self,
        get_max_instead_of_sum: bool,
        count_in_loops: bool,
    ) -> (r: usize)
        requires
            self@.atomic_actions_number(get_max_instead_of_sum, count_in_loops) <= usize::MAX,
        ensures
            r == self@.atomic_actions_number(get_max_instead_of_sum, count_in_loops),
        decreases *self,
    {
        match self {
            Interaction::Empty => 0,
            Interaction::Action(bp) => {
                if let Some(_) = bp.origin_on_emission {
                    bp.targets.len() + 1
                } else {
                    bp.targets.len()
                }
            },
            Interaction::CoReg(_, i1, i2) => {
                i1.get_atomic_actions_number(get_max_instead_of_sum, count_in_loops)
                    + i2.get_atomic_actions_number(get_max_instead_of_sum, count_in_loops)
            },
            Interaction::Alt(i1, i2) => {
                let i1_num = i1.get_atomic_actions_number(get_max_instead_of_sum, count_in_loops);
                let i2_num = i2.get_atomic_actions_number(get_max_instead_of_sum, count_in_loops);
                if get_max_instead_of_sum {
                    if i1_num >= i2_num {
                        i1_num
                    } else {
                        i2_num
                    }
                } else {
                    i1_num + i2_num
                }
            },
            Interaction::Loop(_, i1) => {
                if count_in_loops {
                    i1.get_atomic_actions_number(get_max_instead_of_sum, count_in_loops)
                } else {
                    0
                }
            },
            Interaction::Sync(_, i1, i2) => {
                i1.get_atomic_actions_number(get_max_instead_of_sum, count_in_loops)
                    + i2.get_atomic_actions_number(get_max_instead_of_sum, count_in_loops)
            },
        }
    }
}

/// However the actions are counted, there are no more of them than when
/// branches add up and loops count.
pub proof fn lemma_actions_number_bound(t: Term, max_of_alt: bool, count_in_loops: bool)
    ensures
        t.atomic_actions_number(max_of_alt, count_in_loops) <= t.atomic_actions_number(false, true),
    decreases t,
{
    match t {
        Term::CoReg(_, t1, t2) => {
            lemma_actions_number_bound(*t1, max_of_alt, count_in_loops);
            lemma_actions_number_bound(*t2, max_of_alt, count_in_loops);
        },
        Term::Alt(t1, t2) => {
            lemma_actions_number_bound(*t1, max_of_alt, count_in_loops);
            lemma_actions_number_bound(*t2, max_of_alt, count_in_loops);
        },
        Term::Sync(_, t1, t2) => {
            lemma_actions_number_bound(*t1, max_of_alt, count_in_loops);
            lemma_actions_number_bound(*t2, max_of_alt, count_in_loops);
        },
        Term::Loop(_, t1) => {
            lemma_actions_number_bound(*t1, max_of_alt, count_in_loops);
        },
        _ => {},
    }
}

} // verus!
