//! The options of an analysis, as a configuration declares them: each
//! declaration sets what it names, and the last one of a kind wins.

use crate::analysis::{
    AnalysisFilter, AnalysisGlobalVerdict, AnalysisParameterization, AnalysisPriorities,
};
use crate::simulation::{
    SimulationActionCriterion, SimulationConfiguration, SimulationLoopCriterion,
};
use vstd::prelude::*;

verus! {

/// The order in which the nodes of a search are visited.
#[derive(Debug, Clone, Copy, PartialEq, Eq, Structural)]
pub enum SearchStrategy {
    /// Breadth first.
    BFS,
    /// Depth first.
    DFS,
    /// High coverage.
    HCS,
}

/// A declaration in the configuration of simulation.
#[derive(Debug, Clone, Copy, PartialEq, Eq, Structural)]
pub enum SimulationOption {
    SimBefore(bool),
    MultiplyByMultiTraceLength(bool),
    Reset(bool),
    Act(SimulationActionCriterion),
    Loop(SimulationLoopCriterion),
}

/// A declaration among the priorities.
#[derive(Debug, Clone, Copy, PartialEq, Eq, Structural)]
pub enum PriorityOption {
    Randomize(bool),
    Emission(i32),
    Reception(i32),
    Loop(i32),
    Simu(i32),
}

/// A declaration among the options of an analysis.
#[derive(Debug, PartialEq, Eq)]
pub enum AnalyzeOption {
    Strategy(SearchStrategy),
    Filters(Vec<AnalysisFilter>),
    Priorities(Vec<PriorityOption>),
    Memoize(bool),
    /// Simulation, with its configuration if one is declared.
    Simulate(Option<Vec<SimulationOption>>),
    LocalAnalysis(bool),
    Goal(Option<AnalysisGlobalVerdict>),
}

/// The priorities of an analysis, and whether steps of equal priority are
/// shuffled.
#[derive(Debug, Clone, Copy, PartialEq, Eq, Structural)]
pub struct DeclaredPriorities {
    pub specific: AnalysisPriorities,
    pub randomize: bool,
}

/// The options of an analysis.
#[derive(Debug, PartialEq, Eq)]
pub struct HibouAnalyzeOptions {
    pub strategy: SearchStrategy,
    pub filters: Vec<AnalysisFilter>,
    pub priorities: DeclaredPriorities,
    pub use_memoization: bool,
    pub goal: Option<AnalysisGlobalVerdict>,
    pub ana_param: AnalysisParameterization,
}

/// The options of an analysis, with the filters as a sequence.
pub struct OptionsView {
    pub strategy: SearchStrategy,
    pub filters: Seq<AnalysisFilter>,
    pub priorities: DeclaredPriorities,
    pub use_memoization: bool,
    pub goal: Option<AnalysisGlobalVerdict>,
    pub ana_param: AnalysisParameterization,
}

impl View for HibouAnalyzeOptions {
    type V = OptionsView;

    open spec fn view(&self) -> OptionsView {
        OptionsView {
            strategy: self.strategy,
            filters: self.filters@,
            priorities: self.priorities,
            use_memoization: self.use_memoization,
            goal: self.goal,
            ana_param: self.ana_param,
        }
    }
}

/// Simulation as it is configured when nothing is declared: no action
/// before the start of a trace, no refill, and a budget of loops by the
/// depth of their nesting.
pub open spec fn plain_simulation() -> SimulationConfiguration {
    SimulationConfiguration {
        sim_before: false,
        reset_crit_after_exec: false,
        multiply_by_multitrace_length: false,
        loop_crit: SimulationLoopCriterion::MaxDepth,
        act_crit: SimulationActionCriterion::NoLimit,
    }
}

/// The configuration with one declaration applied.
pub open spec fn with_simulation_option(cfg: SimulationConfiguration, option: SimulationOption) -> SimulationConfiguration {
    match option {
        SimulationOption::SimBefore(b) => SimulationConfiguration { sim_before: b, ..cfg },
        SimulationOption::MultiplyByMultiTraceLength(b) => SimulationConfiguration {
            multiply_by_multitrace_length: b,
            ..cfg
        },
        SimulationOption::Reset(b) => SimulationConfiguration { reset_crit_after_exec: b, ..cfg },
        SimulationOption::Act(crit) => SimulationConfiguration { act_crit: crit, ..cfg },
        SimulationOption::Loop(crit) => SimulationConfiguration { loop_crit: crit, ..cfg },
    }
}

/// The configuration of simulation that the declarations give.
pub open spec fn simulation_config_of(options: Seq<SimulationOption>) -> SimulationConfiguration
    decreases options.len(),
{
    if options.len() == 0 {
        plain_simulation()
    } else {
        with_simulation_option(simulation_config_of(options.drop_last()), options.last())
    }
}

/// The priorities when nothing is declared among them: no weight on what
/// can be declared, and no shuffling.
pub open spec fn plain_priorities() -> DeclaredPriorities {
    DeclaredPriorities {
        specific: AnalysisPriorities {
            emission: 0,
            reception: 0,
            multi_rdv: 0,
            in_loop: 0,
            elim: 1,
            simu: 0,
        },
        randomize: false,
    }
}

/// The priorities with one declaration applied.
pub open spec fn with_priority_option(p: DeclaredPriorities, option: PriorityOption) -> DeclaredPriorities {
    match option {
        PriorityOption::Randomize(b) => DeclaredPriorities { randomize: b, ..p },
        PriorityOption::Emission(level) => DeclaredPriorities {
            specific: AnalysisPriorities { emission: level, ..p.specific },
            ..p
        },
        PriorityOption::Reception(level) => DeclaredPriorities {
            specific: AnalysisPriorities { reception: level, ..p.specific },
            ..p
        },
        PriorityOption::Loop(level) => DeclaredPriorities {
            specific: AnalysisPriorities { in_loop: level, ..p.specific },
            ..p
        },
        PriorityOption::Simu(level) => DeclaredPriorities {
            specific: AnalysisPriorities { simu: level, ..p.specific },
            ..p
        },
    }
}

/// The priorities that the declarations give.
pub open spec fn priorities_of(options: Seq<PriorityOption>) -> DeclaredPriorities
    decreases options.len(),
{
    if options.len() == 0 {
        plain_priorities()
    } else {
        with_priority_option(priorities_of(options.drop_last()), options.last())
    }
}

/// The options before any declaration is read: breadth first, no filter,
/// the priorities of `AnalysisPriorities::default`, the local analysis and
/// memoization on, no simulation, and a weak pass as the goal.
pub open spec fn options_to_start_from() -> OptionsView {
    OptionsView {
        strategy: SearchStrategy::BFS,
        filters: Seq::empty(),
        priorities: DeclaredPriorities {
            specific: AnalysisPriorities {
                emission: 0,
                reception: 0,
                multi_rdv: 0,
                in_loop: 0,
                elim: 1,
                simu: -1i32,
            },
            randomize: false,
        },
        use_memoization: true,
        goal: Some(AnalysisGlobalVerdict::WeakPass),
        ana_param: AnalysisParameterization { use_simulation: None, use_locana: true },
    }
}

/// The options with one declaration applied.
pub open spec fn with_option(o: OptionsView, option: AnalyzeOption) -> OptionsView {
    match option {
        AnalyzeOption::Strategy(strategy) => OptionsView { strategy, ..o },
        AnalyzeOption::Filters(filters) => OptionsView { filters: filters@, ..o },
        AnalyzeOption::Priorities(declared) => OptionsView {
            priorities: priorities_of(declared@),
            ..o
        },
        AnalyzeOption::Memoize(b) => OptionsView { use_memoization: b, ..o },
        AnalyzeOption::Simulate(declared) => OptionsView {
            ana_param: AnalysisParameterization {
                use_simulation: Some(
                    match declared {
                        None => plain_simulation(),
                        Some(options) => simulation_config_of(options@),
                    },
                ),
                ..o.ana_param
            },
            ..o
        },
        AnalyzeOption::LocalAnalysis(b) => OptionsView {
            ana_param: AnalysisParameterization { use_locana: b, ..o.ana_param },
            ..o
        },
        AnalyzeOption::Goal(goal) => OptionsView { goal, ..o },
    }
}

/// The options that the declarations give.
pub open spec fn options_of(options: Seq<AnalyzeOption>) -> OptionsView
    decreases options.len(),
{
    if options.len() == 0 {
        options_to_start_from()
    } else {
        with_option(options_of(options.drop_last()), options.last())
    }
}

/// The configuration of simulation that the declarations give: see
/// `simulation_config_of`.
pub fn parse_simulation_config(options: &Vec<SimulationOption>) -> (r: SimulationConfiguration)
    ensures
        r == simulation_config_of(options@),
{
    let mut sim_before = false;
    let mut reset_crit_after_exec = false;
    let mut multiply_by_multitrace_length = false;
    let mut loop_crit = SimulationLoopCriterion::MaxDepth;
    let mut act_crit = SimulationActionCriterion::NoLimit;
    let mut i: usize = 0;
    proof {
        assert(options@.take(0) =~= Seq::<SimulationOption>::empty());
    }
    while i < options.len()
        invariant
            i <= options.len(),
            simulation_config_of(options@.take(i as int)) == (SimulationConfiguration {
                sim_before,
                reset_crit_after_exec,
                multiply_by_multitrace_length,
                loop_crit,
                act_crit,
            }),
        decreases options.len() - i,
    {
        proof {
            assert(options@.take(i + 1).drop_last() =~= options@.take(i as int));
            assert(options@.take(i + 1).last() == options@[i as int]);
        }
        match options[i] {
            SimulationOption::SimBefore(b) => {
                sim_before = b;
            },
            SimulationOption::MultiplyByMultiTraceLength(b) => {
                multiply_by_multitrace_length = b;
            },
            SimulationOption::Reset(b) => {
                reset_crit_after_exec = b;
            },
            SimulationOption::Act(crit) => {
                act_crit = crit;
            },
            SimulationOption::Loop(crit) => {
                loop_crit = crit;
            },
        }
        i += 1;
    }
    proof {
        assert(options@.take(options.len() as int) =~= options@);
    }
    SimulationConfiguration::new(
        sim_before,
        reset_crit_after_exec,
        multiply_by_multitrace_length,
        loop_crit,
        act_crit,
    )
}

/// The priorities that the declarations give: see `priorities_of`.
pub fn parse_priorities(options: &Vec<PriorityOption>) -> (r: DeclaredPriorities)
    ensures
        r == priorities_of(options@),
{
    let mut randomize = false;
    let mut emission: i32 = 0;
    let mut reception: i32 = 0;
    let mut in_loop: i32 = 0;
    let mut simu: i32 = 0;
    let mut i: usize = 0;
    proof {
        assert(options@.take(0) =~= Seq::<PriorityOption>::empty());
    }
    while i < options.len()
        invariant
            i <= options.len(),
            priorities_of(options@.take(i as int)) == (DeclaredPriorities {
                specific: AnalysisPriorities {
                    emission,
                    reception,
                    multi_rdv: 0,
                    in_loop,
                    elim: 1,
                    simu,
                },
                randomize,
            }),
        decreases options.len() - i,
    {
        proof {
            assert(options@.take(i + 1).drop_last() =~= options@.take(i as int));
            assert(options@.take(i + 1).last() == options@[i as int]);
        }
        match options[i] {
            PriorityOption::Randomize(b) => {
                randomize = b;
            },
            PriorityOption::Emission(level) => {
                emission = level;
            },
            PriorityOption::Reception(level) => {
                reception = level;
            },
            PriorityOption::Loop(level) => {
                in_loop = level;
            },
            PriorityOption::Simu(level) => {
                simu = level;
            },
        }
        i += 1;
    }
    proof {
        assert(options@.take(options.len() as int) =~= options@);
    }
    DeclaredPriorities {
        specific: AnalysisPriorities::new(emission, reception, 0, in_loop, 1, simu),
        randomize,
    }
}

fn copy_filters(filters: &Vec<AnalysisFilter>) -> (r: Vec<AnalysisFilter>)
    ensures
        r@ == filters@,
{
    let mut r: Vec<AnalysisFilter> = Vec::new();
    let mut i: usize = 0;
    while i < filters.len()
        invariant
            i <= filters.len(),
            r@ == filters@.take(i as int),
        decreases filters.len() - i,
    {
        r.push(filters[i]);
        proof {
            assert(filters@.take(i + 1) =~= filters@.take(i as int).push(filters@[i as int]));
        }
        i += 1;
    }
    proof {
        assert(filters@.take(filters.len() as int) =~= filters@);
    }
    r
}

impl HibouAnalyzeOptions {
    pub fn new(
        strategy: SearchStrategy,
        filters: Vec<AnalysisFilter>,
        priorities: DeclaredPriorities,
        ana_param: AnalysisParameterization,
        use_memoization: bool,
        goal: Option<AnalysisGlobalVerdict>,
    ) -> (r: HibouAnalyzeOptions)
        ensures
            r@ == (OptionsView {
                strategy,
                filters: filters@,
                priorities,
                use_memoization,
                goal,
                ana_param,
            }),
    {
        HibouAnalyzeOptions { strategy, filters, priorities, use_memoization, goal, ana_param }
    }

    /// The options of an analysis for which nothing is configured: depth
    /// first, and else as the options that a configuration starts from.
    pub fn default() -> (r: HibouAnalyzeOptions)
        ensures
            r@ == (OptionsView { strategy: SearchStrategy::DFS, ..options_to_start_from() }),
    {
        HibouAnalyzeOptions::new(
            SearchStrategy::DFS,
            Vec::new(),
            DeclaredPriorities { specific: AnalysisPriorities::default(), randomize: false },
            AnalysisParameterization::new(None, true),
            true,
            Some(AnalysisGlobalVerdict::WeakPass),
        )
    }
}

/// The options that the declarations of a configuration give: see
/// `options_of`.
pub fn parse_analyze_options(options: &Vec<AnalyzeOption>) -> (r: HibouAnalyzeOptions)
    ensures
        r@ == options_of(options@),
{
    let mut strategy = SearchStrategy::BFS;
    let mut filters: Vec<AnalysisFilter> = Vec::new();
    let mut priorities = DeclaredPriorities {
        specific: AnalysisPriorities::default(),
        randomize: false,
    };
    let mut sim_conf: Option<SimulationConfiguration> = None;
    let mut use_local_analysis = true;
    let mut use_memoization = true;
    let mut goal = Some(AnalysisGlobalVerdict::WeakPass);
    let mut i: usize = 0;
    proof {
        assert(options@.take(0) =~= Seq::<AnalyzeOption>::empty());
    }
    while i < options.len()
        invariant
            i <= options.len(),
            options_of(options@.take(i as int)) == (OptionsView {
                strategy,
                filters: filters@,
                priorities,
                use_memoization,
                goal,
                ana_param: AnalysisParameterization {
                    use_simulation: sim_conf,
                    use_locana: use_local_analysis,
                },
            }),
        decreases options.len() - i,
    {
        proof {
            assert(options@.take(i + 1).drop_last() =~= options@.take(i as int));
            assert(options@.take(i + 1).last() == options@[i as int]);
        }
        match &options[i] {
            AnalyzeOption::Strategy(declared) => {
                strategy = *declared;
            },
            AnalyzeOption::Filters(declared) => {
                filters = copy_filters(declared);
            },
            AnalyzeOption::Priorities(declared) => {
                priorities = parse_priorities(declared);
            },
            AnalyzeOption::Memoize(b) => {
                use_memoization = *b;
            },
            AnalyzeOption::Simulate(declared) => {
                match declared {
                    None => {
                        sim_conf = Some(
                            SimulationConfiguration::new(
                                false,
                                false,
                                false,
                                SimulationLoopCriterion::MaxDepth,
                                SimulationActionCriterion::NoLimit,
                            ),
                        );
                    },
                    Some(sim_options) => {
                        sim_conf = Some(parse_simulation_config(sim_options));
                    },
                }
            },
            AnalyzeOption::LocalAnalysis(b) => {
                use_local_analysis = *b;
            },
            AnalyzeOption::Goal(declared) => {
                goal = *declared;
            },
        }
        i += 1;
    }
    proof {
        assert(options@.take(options.len() as int) =~= options@);
    }
    HibouAnalyzeOptions::new(
        strategy,
        filters,
        priorities,
        AnalysisParameterization::new(sim_conf, use_local_analysis),
        use_memoization,
        goal,
    )
}

} // verus!
