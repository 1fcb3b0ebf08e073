//! How far the analysis has come on each trace of a multi-trace.

use crate::trace::{MultiTrace, TraceAction};
use vstd::prelude::*;

verus! {

/// The state of the analysis on one trace.
#[derive(Debug, Clone, Copy, PartialEq, Eq, Structural, Hash)]
pub struct TraceAnalysisFlags {
    /// How many actions of the trace have been consumed.
    pub consumed: usize,
    /// The trace is hidden: its lifelines are no longer observed.
    pub no_longer_observed: bool,
    /// The local analysis has to look at this trace again.
    pub dirty4local: bool,
    /// How many actions were made up before the first one of the trace.
    pub simulated_before: u32,
    /// How many actions were made up after the last one of the trace.
    pub simulated_after: u32,
}

impl TraceAnalysisFlags {
    pub fn new(
        consumed: usize,
        no_longer_observed: bool,
        dirty4local: bool,
        simulated_before: u32,
        simulated_after: u32,
    ) -> (r: TraceAnalysisFlags)
        ensures
            r == (TraceAnalysisFlags {
                consumed,
                no_longer_observed,
                dirty4local,
                simulated_before,
                simulated_after,
            }),
    {
        TraceAnalysisFlags {
            consumed,
            no_longer_observed,
            dirty4local,
            simulated_before,
            simulated_after,
        }
    }

    /// The flags of a trace of which nothing has been consumed.
    pub open spec fn initial() -> TraceAnalysisFlags {
        TraceAnalysisFlags {
            consumed: 0,
            no_longer_observed: false,
            dirty4local: true,
            simulated_before: 0,
            simulated_after: 0,
        }
    }

    pub fn new_init() -> (r: TraceAnalysisFlags)
        ensures
            r == TraceAnalysisFlags::initial(),
    {
        TraceAnalysisFlags::new(0, false, true, 0, 0)
    }
}

/// The state of the analysis on a multi-trace: the flags of each trace, and
/// what is left of the two budgets of simulation.
#[derive(Debug, PartialEq, Eq, Hash)]
pub struct MultiTraceAnalysisFlags {
    pub canals: Vec<TraceAnalysisFlags>,
    pub rem_loop_in_sim: u32,
    pub rem_act_in_sim: u32,
}

impl Clone for MultiTraceAnalysisFlags {
    fn clone(&self) -> (r: Self)
        ensures
            r.canals@ == self.canals@,
            r.rem_loop_in_sim == self.rem_loop_in_sim,
            r.rem_act_in_sim == self.rem_act_in_sim,
    {
        let mut canals: Vec<TraceAnalysisFlags> = Vec::new();
        let mut i: usize = 0;
        while i < self.canals.len()
            invariant
                i <= self.canals.len(),
                canals@ == self.canals@.take(i as int),
            decreases self.canals.len() - i,
        {
            canals.push(self.canals[i]);
            proof {
                assert(self.canals@.take(i + 1) =~= self.canals@.take(i as int).push(
                    self.canals@[i as int],
                ));
            }
            i += 1;
        }
        proof {
            assert(self.canals@.take(self.canals.len() as int) =~= self.canals@);
        }
        MultiTraceAnalysisFlags {
            canals,
            rem_loop_in_sim: self.rem_loop_in_sim,
            rem_act_in_sim: self.rem_act_in_sim,
        }
    }
}

/// Whether made-up actions helped to consume a multi-trace, and where.
#[derive(Debug, Clone, Copy, PartialEq, Eq, Structural)]
pub enum WasMultiTraceConsumedWithSimulation {
    No,
    OnlyAfterEnd,
    AsSlice,
}

/// The number of actions consumed on all the traces together.
pub open spec fn consumed_total(canals: Seq<TraceAnalysisFlags>) -> nat
    decreases canals.len(),
{
    if canals.len() == 0 {
        0
    } else {
        consumed_total(canals.drop_last()) + canals.last().consumed as nat
    }
}

/// Some trace has no action left.
pub open spec fn some_component_empty(
    canals: Seq<TraceAnalysisFlags>,
    multi_trace: Seq<Vec<TraceAction>>,
) -> bool {
    exists|i: int|
        0 <= i < canals.len() && i < multi_trace.len() && multi_trace[i]@.len()
            == (#[trigger] canals[i]).consumed
}

/// No trace has an action left.
pub open spec fn all_consumed(
    canals: Seq<TraceAnalysisFlags>,
    multi_trace: Seq<Vec<TraceAction>>,
) -> bool {
    forall|i: int|
        0 <= i < canals.len() && i < multi_trace.len() ==> multi_trace[i]@.len() <= (
        #[trigger] canals[i]).consumed
}

/// Whether actions were made up: before the start of some trace, else after
/// the end of some trace, else not at all.
pub open spec fn simulation_used(canals: Seq<TraceAnalysisFlags>) -> WasMultiTraceConsumedWithSimulation {
    if exists|i: int| 0 <= i < canals.len() && (#[trigger] canals[i]).simulated_before > 0 {
        WasMultiTraceConsumedWithSimulation::AsSlice
    } else if exists|i: int| 0 <= i < canals.len() && (#[trigger] canals[i]).simulated_after > 0 {
        WasMultiTraceConsumedWithSimulation::OnlyAfterEnd
    } else {
        WasMultiTraceConsumedWithSimulation::No
    }
}

pub proof fn lemma_consumed_total_monotone(canals: Seq<TraceAnalysisFlags>, n: int)
    requires
        0 <= n <= canals.len(),
    ensures
        consumed_total(canals.take(n)) <= consumed_total(canals),
    decreases canals.len() - n,
{
    if n == canals.len() {
        assert(canals.take(n) =~= canals);
    } else {
        lemma_consumed_total_monotone(canals, n + 1);
        assert(canals.take(n + 1).drop_last() =~= canals.take(n));
    }
}

impl MultiTraceAnalysisFlags {
    /// Fresh flags for `canals_num` traces.
    pub fn new_init(canals_num: usize, rem_loop_in_sim: u32, rem_act_in_sim: u32) -> (r:
        MultiTraceAnalysisFlags)
        ensures
            r.canals@ == Seq::new(canals_num as nat, |i: int| TraceAnalysisFlags::initial()),
            r.rem_loop_in_sim == rem_loop_in_sim,
            r.rem_act_in_sim == rem_act_in_sim,
    {
        let mut canals: Vec<TraceAnalysisFlags> = Vec::new();
        let mut i: usize = 0;
        while i < canals_num
            invariant
                i <= canals_num,
                canals@ == Seq::new(i as nat, |j: int| TraceAnalysisFlags::initial()),
            decreases canals_num - i,
        {
            canals.push(TraceAnalysisFlags::new_init());
            proof {
                assert(canals@ =~= Seq::new((i + 1) as nat, |j: int| TraceAnalysisFlags::initial()));
            }
            i += 1;
        }
        MultiTraceAnalysisFlags::new(canals, rem_loop_in_sim, rem_act_in_sim)
    }

    pub fn new(canals: Vec<TraceAnalysisFlags>, rem_loop_in_sim: u32, rem_act_in_sim: u32) -> (r:
        MultiTraceAnalysisFlags)
        ensures
            r.canals == canals,
            r.rem_loop_in_sim == rem_loop_in_sim,
            r.rem_act_in_sim == rem_act_in_sim,
    {
        MultiTraceAnalysisFlags { canals, rem_loop_in_sim, rem_act_in_sim }
    }

    /// The number of actions consumed on all the traces together.
    pub fn get_number_of_consumed_actions(&self) -> (r: usize)
        requires
            consumed_total(self.canals@) <= usize::MAX,
        ensures
            r == consumed_total(self.canals@),
    {
        let mut sum: usize = 0;
        let mut i: usize = 0;
        proof {
            assert(self.canals@.take(0) =~= Seq::<TraceAnalysisFlags>::empty());
        }
        while i < self.canals.len()
            invariant
                i <= self.canals.len(),
                consumed_total(self.canals@) <= usize::MAX,
                sum == consumed_total(self.canals@.take(i as int)),
            decreases self.canals.len() - i,
        {
            proof {
                assert(self.canals@.take(i + 1).drop_last() =~= self.canals@.take(i as int));
                assert(self.canals@.take(i + 1).last() == self.canals@[i as int]);
                lemma_consumed_total_monotone(self.canals@, i + 1);
            }
            sum = sum + self.canals[i].consumed;
            i += 1;
        }
        proof {
            assert(self.canals@.take(self.canals.len() as int) =~= self.canals@);
        }
        sum
    }

    /// Whether some trace has no action left.
    pub fn is_any_component_empty(&self, multi_trace: &MultiTrace) -> (r: bool)
        requires
            self.canals@.len() <= multi_trace@.len(),
        ensures
            r == some_component_empty(self.canals@, multi_trace@),
    {
        let mut canal_id: usize = 0;
        while canal_id < self.canals.len()
            invariant
                canal_id <= self.canals.len(),
                self.canals@.len() <= multi_trace@.len(),
                forall|i: int|
                    0 <= i < canal_id ==> multi_trace@[i]@.len() != (
                    #[trigger] self.canals@[i]).consumed,
            decreases self.canals.len() - canal_id,
        {
            if multi_trace[canal_id].len() == self.canals[canal_id].consumed {
                return true;
            }
            canal_id += 1;
        }
        false
    }

    /// Whether no trace has an action left.
    pub fn is_multi_trace_empty(&self, multi_trace: &MultiTrace) -> (r: bool)
        requires
            self.canals@.len() <= multi_trace@.len(),
        ensures
            r == all_consumed(self.canals@, multi_trace@),
    {
        let mut canal_id: usize = 0;
        while canal_id < self.canals.len()
            invariant
                canal_id <= self.canals.len(),
                self.canals@.len() <= multi_trace@.len(),
                forall|i: int|
                    0 <= i < canal_id ==> multi_trace@[i]@.len() <= (
                    #[trigger] self.canals@[i]).consumed,
            decreases self.canals.len() - canal_id,
        {
            if multi_trace[canal_id].len() > self.canals[canal_id].consumed {
                return false;
            }
            canal_id += 1;
        }
        true
    }

    /// Whether some trace is hidden.
    pub fn is_any_component_hidden(&self) -> (r: bool)
        ensures
            r == exists|i: int|
                0 <= i < self.canals@.len() && (#[trigger] self.canals@[i]).no_longer_observed,
    {
        let mut i: usize = 0;
        while i < self.canals.len()
            invariant
                i <= self.canals.len(),
                forall|j: int| 0 <= j < i ==> !(#[trigger] self.canals@[j]).no_longer_observed,
            decreases self.canals.len() - i,
        {
            if self.canals[i].no_longer_observed {
                return true;
            }
            i += 1;
        }
        false
    }

    /// The first trace that is marked for the local analysis, if there is
    /// one; its mark is taken off.
    pub fn take_dirty_canal(&mut self) -> (r: Option<usize>)
        ensures
            match r {
                Some(c) => c < old(self).canals@.len() && old(self).canals@[c as int].dirty4local
                    && (forall|i: int| 0 <= i < c ==> !(#[trigger] old(self).canals@[i]).dirty4local)
                    && final(self).canals@ == old(self).canals@.update(
                    c as int,
                    TraceAnalysisFlags { dirty4local: false, ..old(self).canals@[c as int] },
                ),
                None => final(self).canals@ == old(self).canals@ && forall|i: int|
                    0 <= i < old(self).canals@.len() ==> !(#[trigger] old(self).canals@[i]).dirty4local,
            },
            final(self).rem_loop_in_sim == old(self).rem_loop_in_sim,
            final(self).rem_act_in_sim == old(self).rem_act_in_sim,
    {
        let mut i: usize = 0;
        while i < self.canals.len()
            invariant
                i <= self.canals.len(),
                *self == *old(self),
                forall|j: int| 0 <= j < i ==> !(#[trigger] self.canals@[j]).dirty4local,
            decreases self.canals.len() - i,
        {
            if self.canals[i].dirty4local {
                let mut cleaned = self.canals[i];
                cleaned.dirty4local = false;
                self.canals.set(i, cleaned);
                return Some(i);
            }
            i += 1;
        }
        None
    }

    /// Whether actions were made up, and where: see `simulation_used`.
    pub fn is_simulated(&self) -> (r: WasMultiTraceConsumedWithSimulation)
        ensures
            r == simulation_used(self.canals@),
    {
        let mut got_sim_after = false;
        let mut i: usize = 0;
        while i < self.canals.len()
            invariant
                i <= self.canals.len(),
                forall|j: int| 0 <= j < i ==> (#[trigger] self.canals@[j]).simulated_before == 0,
                got_sim_after == exists|j: int|
                    0 <= j < i && (#[trigger] self.canals@[j]).simulated_after > 0,
            decreases self.canals.len() - i,
        {
            if self.canals[i].simulated_before > 0 {
                return WasMultiTraceConsumedWithSimulation::AsSlice;
            }
            if self.canals[i].simulated_after > 0 {
                got_sim_after = true;
            }
            i += 1;
        }
        if got_sim_after {
            WasMultiTraceConsumedWithSimulation::OnlyAfterEnd
        } else {
            WasMultiTraceConsumedWithSimulation::No
        }
    }
}

} // verus!
