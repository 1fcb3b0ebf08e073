//! What stays true of terms and of flags along an analysis.

use crate::analysis::{heads_of, heads_upto};
use crate::colocalizations::coloc_of;
use crate::context::ContextView;
use crate::eliminate::kept;
use crate::flags::TraceAnalysisFlags;
use crate::frontier::{matched_against, matches_of, FrontierElement};
use crate::ids::all_ids;
use crate::interaction::Term;
use crate::position::Position;
use crate::simulation::{can_step, canals_after, stepped, SimulationStepKind};
use crate::sync::ordered;
use crate::trace::TraceAction;
use vstd::prelude::*;

verus! {

impl Term {
    /// The term is in canonical form: every action has an origin or a
    /// target, no lifeline occurs twice among the targets of an action or
    /// in a co-region, and the keys of every synchronisation map ascend.
    pub open spec fn canonical(self) -> bool
        decreases self,
    {
        match self {
            Term::Empty => true,
            Term::Action(bp) => !bp.is_structurally_empty() && bp.targets.no_duplicates(),
            Term::CoReg(cr, t1, t2) => cr.no_duplicates() && t1.canonical() && t2.canonical(),
            Term::Loop(cr, t1) => cr.no_duplicates() && t1.canonical(),
            Term::Alt(t1, t2) => t1.canonical() && t2.canonical(),
            Term::Sync(sync, t1, t2) => ordered(sync) && t1.canonical() && t2.canonical(),
        }
    }
}

proof fn lemma_all_ids_distinct(n: nat)
    requires
        n <= usize::MAX,
    ensures
        all_ids(n).no_duplicates(),
{
}

proof fn lemma_kept_distinct(ids: Seq<usize>, gone: Set<usize>)
    requires
        ids.no_duplicates(),
    ensures
        kept(ids, gone).no_duplicates(),
        forall|x: usize| kept(ids, gone).contains(x) ==> ids.contains(x),
    decreases ids.len(),
{
    if ids.len() > 0 {
        let front = ids.drop_last();
        assert(front.no_duplicates()) by {
            assert forall|i: int, j: int| 0 <= i < front.len() && 0 <= j < front.len() && i
                != j implies front[i] != front[j] by {
                assert(front[i] == ids[i] && front[j] == ids[j]);
            }
        }
        lemma_kept_distinct(front, gone);
        let k = kept(front, gone);
        assert forall|x: usize| front.contains(x) implies ids.contains(x) && x != ids.last() by {
            let i = choose|i: int| 0 <= i < front.len() && front[i] == x;
            assert(ids[i] == x);
            assert(ids[ids.len() - 1] == ids.last());
        }
        assert(ids[ids.len() - 1] == ids.last());
        if !gone.contains(ids.last()) {
            let m = k.push(ids.last());
            assert forall|i: int, j: int| 0 <= i < m.len() && 0 <= j < m.len() && i
                != j implies m[i] != m[j] by {
                if i < k.len() {
                    assert(m[i] == k[i]);
                    assert(k.contains(k[i]));
                    assert(front.contains(k[i]));
                } else {
                    assert(m[i] == ids.last());
                }
                if j < k.len() {
                    assert(m[j] == k[j]);
                    assert(k.contains(k[j]));
                    assert(front.contains(k[j]));
                } else {
                    assert(m[j] == ids.last());
                }
            }
            assert forall|x: usize| m.contains(x) implies ids.contains(x) by {
                let i = choose|i: int| 0 <= i < m.len() && m[i] == x;
                if i < k.len() {
                    assert(k.contains(k[i]));
                }
            }
        }
    }
}

proof fn lemma_remove_distinct(ids: Seq<usize>, k: int)
    requires
        ids.no_duplicates(),
        0 <= k < ids.len(),
    ensures
        ids.remove(k).no_duplicates(),
{
    let r = ids.remove(k);
    assert forall|i: int, j: int| 0 <= i < r.len() && 0 <= j < r.len() && i != j implies r[i]
        != r[j] by {
        let i2 = if i < k {
            i
        } else {
            i + 1
        };
        let j2 = if j < k {
            j
        } else {
            j + 1
        };
        assert(r[i] == ids[i2] && r[j] == ids[j2]);
    }
}

/// Pruning keeps a term in canonical form.
pub proof fn lemma_prune_canonical(t: Term, lf_ids: Set<usize>, ctx: ContextView)
    requires
        t.canonical(),
        ctx.lf_num() <= usize::MAX,
    ensures
        t.prune(lf_ids, ctx).canonical(),
    decreases t,
{
    lemma_all_ids_distinct(ctx.lf_num());
    match t {
        Term::CoReg(_, t1, t2) => {
            lemma_prune_canonical(*t1, lf_ids, ctx);
            lemma_prune_canonical(*t2, lf_ids, ctx);
        },
        Term::Sync(_, t1, t2) => {
            lemma_prune_canonical(*t1, lf_ids, ctx);
            lemma_prune_canonical(*t2, lf_ids, ctx);
        },
        Term::Alt(t1, t2) => {
            lemma_prune_canonical(*t1, lf_ids, ctx);
            lemma_prune_canonical(*t2, lf_ids, ctx);
        },
        Term::Loop(_, t1) => {
            lemma_prune_canonical(*t1, lf_ids, ctx);
        },
        _ => {},
    }
}

/// Eliminating lifelines keeps a term in canonical form.
pub proof fn lemma_eliminate_canonical(t: Term, gone: Set<usize>, ctx: ContextView)
    requires
        t.canonical(),
        ctx.lf_num() <= usize::MAX,
    ensures
        t.eliminate_lifelines(gone, ctx).canonical(),
    decreases t,
{
    lemma_all_ids_distinct(ctx.lf_num());
    match t {
        Term::Action(bp) => {
            lemma_kept_distinct(bp.targets, gone);
        },
        Term::CoReg(_, t1, t2) => {
            lemma_eliminate_canonical(*t1, gone, ctx);
            lemma_eliminate_canonical(*t2, gone, ctx);
        },
        Term::Sync(_, t1, t2) => {
            lemma_eliminate_canonical(*t1, gone, ctx);
            lemma_eliminate_canonical(*t2, gone, ctx);
        },
        Term::Alt(t1, t2) => {
            lemma_eliminate_canonical(*t1, gone, ctx);
            lemma_eliminate_canonical(*t2, gone, ctx);
        },
        Term::Loop(_, t1) => {
            lemma_eliminate_canonical(*t1, gone, ctx);
        },
        _ => {},
    }
}

/// Executing an action keeps a term in canonical form.
pub proof fn lemma_execute_canonical(t: Term, pos: Position, act: TraceAction, ctx: ContextView)
    requires
        t.canonical(),
        t.executable(pos, act, ctx),
        ctx.lf_num() <= usize::MAX,
    ensures
        t.execute(pos, act, ctx).canonical(),
    decreases t,
{
    lemma_all_ids_distinct(ctx.lf_num());
    match pos {
        Position::Epsilon(sub) => match t {
            Term::Action(bp) => {
                if let Some(k) = sub {
                    lemma_remove_distinct(bp.targets, k as int);
                }
            },
            _ => {},
        },
        Position::Left(p) => match t {
            Term::Alt(t1, _) => {
                lemma_execute_canonical(*t1, *p, act, ctx);
            },
            Term::Loop(cr, t1) => {
                lemma_execute_canonical(*t1, *p, act, ctx);
                lemma_prune_canonical(t, cr.to_set().insert(act.lf_id), ctx);
                let orig = Term::Loop(cr, Box::new(*t1));
                let right = Term::CoReg(cr, Box::new(t1.execute(*p, act, ctx)), Box::new(orig));
                assert(orig.canonical());
                assert(right.canonical());
            },
            Term::CoReg(_, t1, _) => {
                lemma_execute_canonical(*t1, *p, act, ctx);
            },
            Term::Sync(_, t1, _) => {
                lemma_execute_canonical(*t1, *p, act, ctx);
            },
            _ => {},
        },
        Position::Right(p) => match t {
            Term::Alt(_, t2) => {
                lemma_execute_canonical(*t2, *p, act, ctx);
            },
            Term::CoReg(_, t1, t2) => {
                lemma_execute_canonical(*t2, *p, act, ctx);
                lemma_prune_canonical(*t1, set![act.lf_id], ctx);
            },
            Term::Sync(_, _, t2) => {
                lemma_execute_canonical(*t2, *p, act, ctx);
            },
            _ => {},
        },
        Position::Both(p1, p2) => match t {
            Term::Alt(t1, t2) => {
                lemma_execute_canonical(*t1, *p1, act, ctx);
                lemma_execute_canonical(*t2, *p2, act, ctx);
            },
            Term::Sync(_, t1, t2) => {
                lemma_execute_canonical(*t1, *p1, act, ctx);
                lemma_execute_canonical(*t2, *p2, act, ctx);
            },
            _ => {},
        },
    }
}

/// The number of steps that were taken on a trace.
pub open spec fn firings(flag: TraceAnalysisFlags) -> int {
    flag.consumed + flag.simulated_before + flag.simulated_after
}

/// No trace is consumed beyond its end.
pub open spec fn within_traces(canals: Seq<TraceAnalysisFlags>, multi_trace: Seq<Vec<TraceAction>>) -> bool {
    forall|i: int|
        0 <= i < canals.len() ==> i < multi_trace.len() && (#[trigger] canals[i]).consumed
            <= multi_trace[i]@.len()
}

/// Every action of a trace is an action of a lifeline of the group of the
/// trace.
pub open spec fn traces_match_groups(multi_trace: Seq<Vec<TraceAction>>, groups: Seq<Set<usize>>) -> bool {
    forall|i: int, j: int|
        0 <= i < multi_trace.len() && 0 <= j < multi_trace[i]@.len() ==> coloc_of(
            groups,
            (#[trigger] multi_trace[i]@[j]).lf_id,
        ) == Some(i as usize)
}

/// A step on a trace counts as one firing on this trace, and as none on the
/// others.
pub proof fn lemma_step_counts_once(
    canals: Seq<TraceAnalysisFlags>,
    coloc_id: usize,
    is_simu: Option<SimulationStepKind>,
    i: int,
)
    requires
        0 <= i < canals.len(),
        coloc_id < canals.len(),
        can_step(canals[coloc_id as int], is_simu),
    ensures
        firings(canals_after(canals, coloc_id, is_simu)[i]) == firings(canals[i]) + if i
            == coloc_id {
            1int
        } else {
            0int
        },
        is_simu is Some ==> canals_after(canals, coloc_id, is_simu)[i].consumed
            == canals[i].consumed,
{
}

/// `h` is the next action of a trace that is not consumed yet.
pub open spec fn is_head(
    h: TraceAction,
    multi_trace: Seq<Vec<TraceAction>>,
    canals: Seq<TraceAnalysisFlags>,
) -> bool {
    exists|i: int|
        0 <= i < canals.len() && i < multi_trace.len() && (#[trigger] canals[i]).consumed
            < multi_trace[i]@.len() && h == multi_trace[i]@[canals[i].consumed as int]
}

proof fn lemma_heads_are_heads(
    multi_trace: Seq<Vec<TraceAction>>,
    canals: Seq<TraceAnalysisFlags>,
    n: nat,
)
    requires
        n <= canals.len(),
    ensures
        forall|k: int|
            0 <= k < heads_upto(multi_trace, canals, n).len() ==> is_head(
                #[trigger] heads_upto(multi_trace, canals, n)[k],
                multi_trace,
                canals,
            ),
    decreases n,
{
    if n > 0 {
        lemma_heads_are_heads(multi_trace, canals, (n - 1) as nat);
        let front = heads_upto(multi_trace, canals, (n - 1) as nat);
        let all = heads_upto(multi_trace, canals, n);
        let i = n - 1;
        assert forall|k: int| 0 <= k < all.len() implies is_head(
            #[trigger] all[k],
            multi_trace,
            canals,
        ) by {
            if k < front.len() {
                assert(all[k] == front[k]);
            } else {
                assert(canals[i].consumed < multi_trace[i]@.len());
            }
        }
    }
}

/// The element shows an action of the lifeline of the next action of a
/// trace.
pub open spec fn meets_a_head(
    x: FrontierElement,
    multi_trace: Seq<Vec<TraceAction>>,
    canals: Seq<TraceAnalysisFlags>,
) -> bool {
    exists|h: TraceAction| #[trigger]
        is_head(h, multi_trace, canals) && h.lf_id == x.target_action.lf_id
}

proof fn lemma_matches_meet_heads(
    e: FrontierElement,
    heads: Seq<TraceAction>,
    ctx: ContextView,
    multi_trace: Seq<Vec<TraceAction>>,
    canals: Seq<TraceAnalysisFlags>,
)
    requires
        forall|k: int| 0 <= k < heads.len() ==> is_head(#[trigger] heads[k], multi_trace, canals),
    ensures
        forall|k: int|
            0 <= k < matches_of(e, heads, ctx).len() ==> meets_a_head(
                #[trigger] matches_of(e, heads, ctx)[k],
                multi_trace,
                canals,
            ),
    decreases heads.len(),
{
    if heads.len() > 0 {
        let front = heads.drop_last();
        assert forall|k: int| 0 <= k < front.len() implies is_head(
            #[trigger] front[k],
            multi_trace,
            canals,
        ) by {
            assert(front[k] == heads[k]);
        }
        lemma_matches_meet_heads(e, front, ctx, multi_trace, canals);
        let mf = matches_of(e, front, ctx);
        let m = matches_of(e, heads, ctx);
        assert(heads[heads.len() - 1] == heads.last());
        assert forall|k: int| 0 <= k < m.len() implies meets_a_head(
            #[trigger] m[k],
            multi_trace,
            canals,
        ) by {
            if k < mf.len() {
                assert(m[k] == mf[k]);
            } else {
                assert(is_head(heads.last(), multi_trace, canals));
            }
        }
    }
}

proof fn lemma_matched_meet_heads(
    f: Seq<FrontierElement>,
    heads: Seq<TraceAction>,
    ctx: ContextView,
    multi_trace: Seq<Vec<TraceAction>>,
    canals: Seq<TraceAnalysisFlags>,
)
    requires
        forall|k: int| 0 <= k < heads.len() ==> is_head(#[trigger] heads[k], multi_trace, canals),
    ensures
        forall|k: int|
            0 <= k < matched_against(f, heads, ctx).len() ==> meets_a_head(
                #[trigger] matched_against(f, heads, ctx)[k],
                multi_trace,
                canals,
            ),
    decreases f.len(),
{
    if f.len() > 0 {
        lemma_matched_meet_heads(f.drop_last(), heads, ctx, multi_trace, canals);
        lemma_matches_meet_heads(f.last(), heads, ctx, multi_trace, canals);
        let a = matched_against(f.drop_last(), heads, ctx);
        let b = matches_of(f.last(), heads, ctx);
        assert forall|k: int| 0 <= k < (a + b).len() implies meets_a_head(
            #[trigger] (a + b)[k],
            multi_trace,
            canals,
        ) by {
            if k < a.len() {
                assert((a + b)[k] == a[k]);
            } else {
                assert((a + b)[k] == b[k - a.len()]);
            }
        }
    }
}

/// A step that consumes the next action of a trace leaves no trace
/// consumed beyond its end: where every trace holds the actions of its own
/// group of lifelines, the step counts on a trace that has an action left.
pub proof fn lemma_matching_step_stays_within(
    t: Term,
    ctx: ContextView,
    groups: Seq<Set<usize>>,
    multi_trace: Seq<Vec<TraceAction>>,
    canals: Seq<TraceAnalysisFlags>,
    k: int,
)
    requires
        within_traces(canals, multi_trace),
        traces_match_groups(multi_trace, groups),
        canals.len() <= usize::MAX,
        0 <= k < t.global_frontier(ctx, Some(heads_of(multi_trace, canals))).len(),
    ensures
        ({
            let e = t.global_frontier(ctx, Some(heads_of(multi_trace, canals)))[k];
            let c = coloc_of(groups, e.target_action.lf_id);
            &&& c matches Some(canal) && canal < canals.len() && canals[canal as int].consumed
                < multi_trace[canal as int]@.len()
            &&& within_traces(canals_after(canals, c->0, None), multi_trace)
        }),
{
    let heads = heads_of(multi_trace, canals);
    lemma_heads_are_heads(multi_trace, canals, canals.len());
    lemma_matched_meet_heads(t.frontier(0, ctx), heads, ctx, multi_trace, canals);
    let e = t.global_frontier(ctx, Some(heads))[k];
    assert(meets_a_head(e, multi_trace, canals));
    let h = choose|h: TraceAction| #[trigger]
        is_head(h, multi_trace, canals) && h.lf_id == e.target_action.lf_id;
    let i = choose|i: int|
        0 <= i < canals.len() && i < multi_trace.len() && (#[trigger] canals[i]).consumed
            < multi_trace[i]@.len() && h == multi_trace[i]@[canals[i].consumed as int];
    assert(coloc_of(groups, multi_trace[i]@[canals[i].consumed as int].lf_id) == Some(i as usize));
    let after = canals_after(canals, i as usize, None);
    assert(multi_trace[i].len() == multi_trace[i]@.len());
    assert(after[i] == stepped(canals[i], None));
    assert forall|j: int| 0 <= j < after.len() implies j < multi_trace.len() && (
    #[trigger] after[j]).consumed <= multi_trace[j]@.len() by {
        assert(canals[j].consumed <= multi_trace[j]@.len());
        if j != i {
            assert(after[j] == canals[j]);
        }
    }
}

} // verus!
