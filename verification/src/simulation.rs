//! Simulation: the analysis may make up actions that the multi-trace does
//! not show, within two budgets.

use crate::flags::{MultiTraceAnalysisFlags, TraceAnalysisFlags};
use crate::interaction::{Interaction, Term};
use vstd::prelude::*;

verus! {

/// How the budget of loops is set.
#[derive(Debug, Clone, Copy, PartialEq, Eq, Structural)]
pub enum SimulationLoopCriterion {
    /// The number of loops of the term.
    MaxNum,
    /// The depth of the nesting of loops in the term.
    MaxDepth,
    /// A given number.
    SpecificNum(u32),
    /// No budget.
    NoLimit,
}

/// How the budget of actions is set.
#[derive(Debug, Clone, Copy, PartialEq, Eq, Structural)]
pub enum SimulationActionCriterion {
    /// The number of actions of the term outside its loops, a choice
    /// counting by its longer branch.
    MaxNumOutsideLoops,
    /// A given number.
    SpecificNum(u32),
    /// No budget.
    NoLimit,
}

/// The rules of simulation.
#[derive(Debug, Clone, Copy, PartialEq, Eq, Structural)]
pub struct SimulationConfiguration {
    /// Actions may be made up before the first action of a trace.
    pub sim_before: bool,
    /// Consuming an action of the multi-trace refills the budgets.
    pub reset_crit_after_exec: bool,
    /// A fresh budget is multiplied by the number of traces.
    pub multiply_by_multitrace_length: bool,
    pub loop_crit: SimulationLoopCriterion,
    pub act_crit: SimulationActionCriterion,
}

/// Whether a step is made up, and on which side of its trace.
#[derive(Debug, Clone, Copy, PartialEq, Eq, Structural)]
pub enum SimulationStepKind {
    BeforeStart,
    AfterEnd,
}

pub open spec fn times(num: nat, factor: nat, multiply: bool) -> nat {
    if multiply {
        num * factor
    } else {
        num
    }
}

impl SimulationConfiguration {
    /// The fresh budget of loops for a term.
    pub open spec fn fresh_loop_budget(self, factor: nat, t: Term) -> nat {
        let num = match self.loop_crit {
            SimulationLoopCriterion::MaxDepth => t.max_nested_loop_depth(),
            SimulationLoopCriterion::MaxNum => t.total_loop_num(),
            SimulationLoopCriterion::SpecificNum(sn) => sn as nat,
            SimulationLoopCriterion::NoLimit => 0,
        };
        times(num, factor, self.multiply_by_multitrace_length)
    }

    /// The fresh budget of actions for a term.
    pub open spec fn fresh_act_budget(self, factor: nat, t: Term) -> nat {
        let num = match self.act_crit {
            SimulationActionCriterion::MaxNumOutsideLoops => t.atomic_actions_number(true, false),
            SimulationActionCriterion::SpecificNum(sn) => sn as nat,
            SimulationActionCriterion::NoLimit => 0,
        };
        times(num, factor, self.multiply_by_multitrace_length)
    }

    /// The fresh budgets fit the machine.
    pub open spec fn budgets_fit(self, factor: nat, t: Term) -> bool {
        &&& self.fresh_loop_budget(factor, t) <= u32::MAX
        &&& self.fresh_act_budget(factor, t) <= u32::MAX
    }

    pub fn new(
        sim_before: bool,
        reset_crit_after_exec: bool,
        multiply_by_multitrace_length: bool,
        loop_crit: SimulationLoopCriterion,
        act_crit: SimulationActionCriterion,
    ) -> (r: SimulationConfiguration)
        ensures
            r == (SimulationConfiguration {
                sim_before,
                reset_crit_after_exec,
                multiply_by_multitrace_length,
                loop_crit,
                act_crit,
            }),
    {
        SimulationConfiguration {
            sim_before,
            reset_crit_after_exec,
            multiply_by_multitrace_length,
            loop_crit,
            act_crit,
        }
    }

    /// Whether the fresh budgets fit the machine.
    pub fn do_budgets_fit(&self, multi_trace_len: usize, interaction: &Interaction) -> (r: bool)
        ensures
            r == self.budgets_fit(multi_trace_len as nat, interaction@),
    {
        let multiply = self.multiply_by_multitrace_length;
        let loops_fit = match self.loop_crit {
            SimulationLoopCriterion::MaxDepth => product_fits(
                interaction.checked_max_nested_loop_depth(),
                multi_trace_len,
                multiply,
                Ghost(interaction@.max_nested_loop_depth()),
            ),
            SimulationLoopCriterion::MaxNum => product_fits(
                interaction.checked_total_loop_num(),
                multi_trace_len,
                multiply,
                Ghost(interaction@.total_loop_num()),
            ),
            SimulationLoopCriterion::SpecificNum(sn) => product_fits(
                Some(sn),
                multi_trace_len,
                multiply,
                Ghost(sn as nat),
            ),
            SimulationLoopCriterion::NoLimit => product_fits(
                Some(0),
                multi_trace_len,
                multiply,
                Ghost(0nat),
            ),
        };
        let acts_fit = match self.act_crit {
            SimulationActionCriterion::MaxNumOutsideLoops => {
                let counted = match interaction.checked_actions_number_outside_loops() {
                    Some(n) => if n > u32::MAX as usize {
                        None
                    } else {
                        Some(n as u32)
                    },
                    None => None,
                };
                product_fits(
                    counted,
                    multi_trace_len,
                    multiply,
                    Ghost(interaction@.atomic_actions_number(true, false)),
                )
            },
            SimulationActionCriterion::SpecificNum(sn) => product_fits(
                Some(sn),
                multi_trace_len,
                multiply,
                Ghost(sn as nat),
            ),
            SimulationActionCriterion::NoLimit => product_fits(
                Some(0),
                multi_trace_len,
                multiply,
                Ghost(0nat),
            ),
        };
        loops_fit && acts_fit
    }

    /// The fresh budget of loops for a term.
    pub fn get_reset_rem_loop(&self, multi_trace_len: usize, interaction: &Interaction) -> (r: u32)
        requires
            self.fresh_loop_budget(multi_trace_len as nat, interaction@) <= u32::MAX,
        ensures
            r == self.fresh_loop_budget(multi_trace_len as nat, interaction@),
    {
        if self.multiply_by_multitrace_length && multi_trace_len == 0 {
            return 0;
        }
        proof {
            lemma_times_bounds(
                interaction@.max_nested_loop_depth(),
                multi_trace_len as nat,
                self.multiply_by_multitrace_length,
            );
            lemma_times_bounds(
                interaction@.total_loop_num(),
                multi_trace_len as nat,
                self.multiply_by_multitrace_length,
            );
        }
        let num: u32 = match self.loop_crit {
            SimulationLoopCriterion::MaxDepth => interaction.max_nested_loop_depth(),
            SimulationLoopCriterion::MaxNum => interaction.total_loop_num(),
            SimulationLoopCriterion::SpecificNum(sn) => sn,
            SimulationLoopCriterion::NoLimit => 0,
        };
        if num == 0 {
            return 0;
        }
        if self.multiply_by_multitrace_length {
            proof {
                lemma_times_bounds(num as nat, multi_trace_len as nat, true);
            }
            num * (multi_trace_len as u32)
        } else {
            num
        }
    }

    /// The fresh budget of actions for a term.
    pub fn get_reset_rem_act(&self, multi_trace_len: usize, interaction: &Interaction) -> (r: u32)
        requires
            self.fresh_act_budget(multi_trace_len as nat, interaction@) <= u32::MAX,
        ensures
            r == self.fresh_act_budget(multi_trace_len as nat, interaction@),
    {
        if self.multiply_by_multitrace_length && multi_trace_len == 0 {
            return 0;
        }
        proof {
            lemma_times_bounds(
                interaction@.atomic_actions_number(true, false),
                multi_trace_len as nat,
                self.multiply_by_multitrace_length,
            );
        }
        let num: u32 = match self.act_crit {
            SimulationActionCriterion::MaxNumOutsideLoops => {
                interaction.get_atomic_actions_number(true, false) as u32
            },
            SimulationActionCriterion::SpecificNum(sn) => sn,
            SimulationActionCriterion::NoLimit => 0,
        };
        if num == 0 {
            return 0;
        }
        if self.multiply_by_multitrace_length {
            proof {
                lemma_times_bounds(num as nat, multi_trace_len as nat, true);
            }
            num * (multi_trace_len as u32)
        } else {
            num
        }
    }
}

/// `num` is `n`, or is missing because `n` does not fit the machine.
pub open spec fn stands_for(num: Option<u32>, n: nat) -> bool {
    match num {
        Some(x) => n == x,
        None => n > u32::MAX,
    }
}

/// Whether `n`, multiplied by the factor where that is asked, fits the
/// machine.
fn product_fits(num: Option<u32>, factor: usize, multiply: bool, Ghost(n): Ghost<nat>) -> (r: bool)
    requires
        stands_for(num, n),
    ensures
        r == (times(n, factor as nat, multiply) <= u32::MAX),
{
    proof {
        lemma_times_bounds(n, factor as nat, multiply);
    }
    if multiply && factor == 0 {
        return true;
    }
    match num {
        None => false,
        Some(x) => {
            if !multiply || x == 0 {
                true
            } else if factor > u32::MAX as usize {
                false
            } else {
                proof {
                    assert(x * factor <= 0xFFFF_FFFF * 0xFFFF_FFFF) by (nonlinear_arith)
                        requires
                            0 <= x <= 0xFFFF_FFFF,
                            0 <= factor <= 0xFFFF_FFFF,
                    ;
                }
                (x as u64) * (factor as u64) <= u32::MAX as u64
            }
        },
    }
}

/// A number times a factor is no less than the number where the factor is
/// not zero, no less than the factor where the number is not zero, and
/// zero where one of them is.
pub proof fn lemma_times_bounds(num: nat, factor: nat, multiply: bool)
    ensures
        !multiply || factor >= 1 ==> num <= times(num, factor, multiply),
        multiply && num >= 1 ==> factor <= times(num, factor, multiply),
        multiply && (num == 0 || factor == 0) ==> times(num, factor, multiply) == 0,
{
    if multiply {
        if factor >= 1 {
            assert(num <= num * factor) by (nonlinear_arith)
                requires
                    factor >= 1,
            ;
        }
        if num >= 1 {
            assert(factor <= num * factor) by (nonlinear_arith)
                requires
                    num >= 1,
            ;
        }
        if num == 0 || factor == 0 {
            assert(num * factor == 0) by (nonlinear_arith)
                requires
                    num == 0 || factor == 0,
            ;
        }
    }
}

/// The flags of a trace after one more step on it.
pub open spec fn stepped(flag: TraceAnalysisFlags, is_simu: Option<SimulationStepKind>) -> TraceAnalysisFlags {
    match is_simu {
        None => TraceAnalysisFlags { consumed: (flag.consumed + 1) as usize, ..flag },
        Some(SimulationStepKind::BeforeStart) => TraceAnalysisFlags {
            simulated_before: (flag.simulated_before + 1) as u32,
            ..flag
        },
        Some(SimulationStepKind::AfterEnd) => TraceAnalysisFlags {
            simulated_after: (flag.simulated_after + 1) as u32,
            ..flag
        },
    }
}

/// The counter that the step raises has room for it.
pub open spec fn can_step(flag: TraceAnalysisFlags, is_simu: Option<SimulationStepKind>) -> bool {
    match is_simu {
        None => flag.consumed < usize::MAX,
        Some(SimulationStepKind::BeforeStart) => flag.simulated_before < u32::MAX,
        Some(SimulationStepKind::AfterEnd) => flag.simulated_after < u32::MAX,
    }
}

/// The flags of the traces after a step on trace `coloc_id`.
pub open spec fn canals_after(
    canals: Seq<TraceAnalysisFlags>,
    coloc_id: usize,
    is_simu: Option<SimulationStepKind>,
) -> Seq<TraceAnalysisFlags> {
    Seq::new(
        canals.len(),
        |i: int|
            if i == coloc_id {
                stepped(canals[i], is_simu)
            } else {
                canals[i]
            },
    )
}

pub open spec fn max_u32(a: u32, b: u32) -> u32 {
    if a >= b {
        a
    } else {
        b
    }
}

impl MultiTraceAnalysisFlags {
    /// The two budgets after a step that left the term `t`.
    ///
    /// Without simulation there is no budget. A step that consumes an
    /// action of the multi-trace refills each budget up to its fresh value,
    /// if the rules say so, and else leaves it. A made-up step takes its
    /// depth in loops from the budget of loops, and one from the budget of
    /// actions.
    pub open spec fn budgets_after(
        self,
        sim_config: Option<SimulationConfiguration>,
        is_simu: Option<SimulationStepKind>,
        loop_depth: u32,
        t: Term,
    ) -> (u32, u32) {
        match sim_config {
            None => (0, 0),
            Some(cfg) => match is_simu {
                None => if cfg.reset_crit_after_exec {
                    (
                        max_u32(
                            self.rem_loop_in_sim,
                            cfg.fresh_loop_budget(self.canals@.len(), t) as u32,
                        ),
                        max_u32(
                            self.rem_act_in_sim,
                            cfg.fresh_act_budget(self.canals@.len(), t) as u32,
                        ),
                    )
                } else {
                    (self.rem_loop_in_sim, self.rem_act_in_sim)
                },
                Some(_) => (
                    (self.rem_loop_in_sim - loop_depth) as u32,
                    (self.rem_act_in_sim - 1) as u32,
                ),
            },
        }
    }

    /// The step can be accounted for: no counter overflows and no budget is
    /// overdrawn.
    pub open spec fn can_update(
        self,
        sim_config: Option<SimulationConfiguration>,
        coloc_id: usize,
        is_simu: Option<SimulationStepKind>,
        loop_depth: u32,
        t: Term,
    ) -> bool {
        &&& coloc_id < self.canals@.len() ==> can_step(self.canals@[coloc_id as int], is_simu)
        &&& sim_config matches Some(cfg) ==> match is_simu {
            None => cfg.reset_crit_after_exec ==> cfg.budgets_fit(self.canals@.len(), t),
            Some(_) => loop_depth <= self.rem_loop_in_sim && self.rem_act_in_sim >= 1,
        }
    }

    /// The flags after a step on trace `executed_action_coloc_id` that left
    /// the term `new_interaction`: see `canals_after` and `budgets_after`.
    pub fn update_on_execution(
        &self,
        sim_config: &Option<SimulationConfiguration>,
        executed_action_coloc_id: usize,
        is_simu: &Option<SimulationStepKind>,
        loop_depth: u32,
        new_interaction: &Interaction,
    ) -> (r: MultiTraceAnalysisFlags)
        requires
            self.can_update(
                *sim_config,
                executed_action_coloc_id,
                *is_simu,
                loop_depth,
                new_interaction@,
            ),
        ensures
            r.canals@ == canals_after(self.canals@, executed_action_coloc_id, *is_simu),
            (r.rem_loop_in_sim, r.rem_act_in_sim) == self.budgets_after(
                *sim_config,
                *is_simu,
                loop_depth,
                new_interaction@,
            ),
    {
        let mut new_canal_flags: Vec<TraceAnalysisFlags> = Vec::new();
        let mut flag_id: usize = 0;
        while flag_id < self.canals.len()
            invariant
                flag_id <= self.canals.len(),
                executed_action_coloc_id < self.canals@.len() ==> can_step(
                    self.canals@[executed_action_coloc_id as int],
                    *is_simu,
                ),
                new_canal_flags@.len() == flag_id,
                forall|i: int|
                    0 <= i < flag_id ==> new_canal_flags@[i] == canals_after(
                        self.canals@,
                        executed_action_coloc_id,
                        *is_simu,
                    )[i],
            decreases self.canals.len() - flag_id,
        {
            let old_flag = self.canals[flag_id];
            if flag_id == executed_action_coloc_id {
                let mut new_flag = old_flag;
                match is_simu {
                    None => {
                        new_flag.consumed = new_flag.consumed + 1;
                    },
                    Some(SimulationStepKind::BeforeStart) => {
                        new_flag.simulated_before = new_flag.simulated_before + 1;
                    },
                    Some(SimulationStepKind::AfterEnd) => {
                        new_flag.simulated_after = new_flag.simulated_after + 1;
                    },
                }
                new_canal_flags.push(new_flag);
            } else {
                new_canal_flags.push(old_flag);
            }
            flag_id += 1;
        }
        proof {
            assert(new_canal_flags@ =~= canals_after(
                self.canals@,
                executed_action_coloc_id,
                *is_simu,
            ));
        }
        let (rem_loop_in_sim, rem_act_in_sim): (u32, u32) = match sim_config {
            None => (0, 0),
            Some(got_sim_config) => match is_simu {
                None => {
                    if got_sim_config.reset_crit_after_exec {
                        let channels = self.canals.len();
                        let fresh_loop = got_sim_config.get_reset_rem_loop(channels, new_interaction);
                        let fresh_act = got_sim_config.get_reset_rem_act(channels, new_interaction);
                        (
                            if self.rem_loop_in_sim >= fresh_loop {
                                self.rem_loop_in_sim
                            } else {
                                fresh_loop
                            },
                            if self.rem_act_in_sim >= fresh_act {
                                self.rem_act_in_sim
                            } else {
                                fresh_act
                            },
                        )
                    } else {
                        (self.rem_loop_in_sim, self.rem_act_in_sim)
                    }
                },
                Some(_) => self.update_criterion_on_simulation(loop_depth),
            },
        };
        MultiTraceAnalysisFlags::new(new_canal_flags, rem_loop_in_sim, rem_act_in_sim)
    }

    /// Whether the step can be accounted for: see `can_update`.
    pub fn can_update_with(
        &self,
        sim_config: &Option<SimulationConfiguration>,
        executed_action_coloc_id: usize,
        is_simu: &Option<SimulationStepKind>,
        loop_depth: u32,
        new_interaction: &Interaction,
    ) -> (r: bool)
        ensures
            r == self.can_update(
                *sim_config,
                executed_action_coloc_id,
                *is_simu,
                loop_depth,
                new_interaction@,
            ),
    {
        if executed_action_coloc_id < self.canals.len() {
            let canal = &self.canals[executed_action_coloc_id];
            let room = match is_simu {
                None => canal.consumed < usize::MAX,
                Some(SimulationStepKind::BeforeStart) => canal.simulated_before < u32::MAX,
                Some(SimulationStepKind::AfterEnd) => canal.simulated_after < u32::MAX,
            };
            if !room {
                return false;
            }
        }
        match sim_config {
            None => true,
            Some(cfg) => match is_simu {
                None => !cfg.reset_crit_after_exec || cfg.do_budgets_fit(
                    self.canals.len(),
                    new_interaction,
                ),
                Some(_) => loop_depth <= self.rem_loop_in_sim && self.rem_act_in_sim >= 1,
            },
        }
    }

    /// The two budgets after a made-up step that entered `loop_depth`
    /// loops.
    pub fn update_criterion_on_simulation(&self, loop_depth: u32) -> (r: (u32, u32))
        requires
            loop_depth <= self.rem_loop_in_sim,
            self.rem_act_in_sim >= 1,
        ensures
            r.0 == self.rem_loop_in_sim - loop_depth,
            r.1 == self.rem_act_in_sim - 1,
    {
        (self.rem_loop_in_sim - loop_depth, self.rem_act_in_sim - 1)
    }
}

} // verus!
