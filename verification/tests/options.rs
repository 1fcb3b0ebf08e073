use hibou_label::analysis::{
    AnalysisFilter, AnalysisGlobalVerdict, AnalysisParameterization, AnalysisPriorities,
};
use hibou_label::options::{
    parse_analyze_options, parse_priorities, parse_simulation_config, AnalyzeOption,
    DeclaredPriorities, HibouAnalyzeOptions, PriorityOption, SearchStrategy, SimulationOption,
};
use hibou_label::simulation::{
    SimulationActionCriterion, SimulationConfiguration, SimulationLoopCriterion,
};

fn plain_simulation() -> SimulationConfiguration {
    SimulationConfiguration::new(
        false,
        false,
        false,
        SimulationLoopCriterion::MaxDepth,
        SimulationActionCriterion::NoLimit,
    )
}

#[test]
fn nothing_declared_gives_the_options_to_start_from() {
    let start = HibouAnalyzeOptions::new(
        SearchStrategy::BFS,
        vec![],
        DeclaredPriorities { specific: AnalysisPriorities::default(), randomize: false },
        AnalysisParameterization::new(None, true),
        true,
        Some(AnalysisGlobalVerdict::WeakPass),
    );
    assert_eq!(parse_analyze_options(&vec![]), start);
    let default = HibouAnalyzeOptions::default();
    assert_eq!(default.strategy, SearchStrategy::DFS);
    assert_eq!(default.filters, vec![]);
    assert_eq!(default.priorities, start.priorities);
    assert_eq!(default.ana_param, start.ana_param);
    assert!(default.use_memoization);
    assert_eq!(default.goal, Some(AnalysisGlobalVerdict::WeakPass));
    assert_eq!(parse_simulation_config(&vec![]), plain_simulation());
    assert_eq!(
        parse_priorities(&vec![]),
        DeclaredPriorities { specific: AnalysisPriorities::new(0, 0, 0, 0, 1, 0), randomize: false }
    );
}

#[test]
fn the_last_declaration_of_a_kind_wins() {
    let simulation = parse_simulation_config(&vec![
        SimulationOption::SimBefore(true),
        SimulationOption::Loop(SimulationLoopCriterion::MaxNum),
        SimulationOption::Act(SimulationActionCriterion::SpecificNum(3)),
        SimulationOption::Reset(true),
        SimulationOption::MultiplyByMultiTraceLength(true),
        SimulationOption::Loop(SimulationLoopCriterion::SpecificNum(7)),
        SimulationOption::SimBefore(false),
    ]);
    assert_eq!(
        simulation,
        SimulationConfiguration::new(
            false,
            true,
            true,
            SimulationLoopCriterion::SpecificNum(7),
            SimulationActionCriterion::SpecificNum(3)
        )
    );
    let priorities = parse_priorities(&vec![
        PriorityOption::Emission(4),
        PriorityOption::Randomize(true),
        PriorityOption::Simu(-2),
        PriorityOption::Loop(1),
        PriorityOption::Reception(9),
        PriorityOption::Emission(5),
    ]);
    assert_eq!(
        priorities,
        DeclaredPriorities { specific: AnalysisPriorities::new(5, 9, 0, 1, 1, -2), randomize: true }
    );
}

#[test]
fn the_options_of_an_analysis_are_read_from_its_declarations() {
    let options = parse_analyze_options(&vec![
        AnalyzeOption::Strategy(SearchStrategy::HCS),
        AnalyzeOption::Filters(vec![AnalysisFilter::MaxNodeNumber(5)]),
        AnalyzeOption::Simulate(Some(vec![SimulationOption::SimBefore(true)])),
        AnalyzeOption::Goal(None),
        AnalyzeOption::LocalAnalysis(false),
        AnalyzeOption::Filters(vec![
            AnalysisFilter::MaxProcessDepth(3),
            AnalysisFilter::MaxLoopInstanciation(2),
        ]),
        AnalyzeOption::Priorities(vec![PriorityOption::Reception(2)]),
        AnalyzeOption::Memoize(false),
        AnalyzeOption::Strategy(SearchStrategy::DFS),
    ]);
    let mut simulation = plain_simulation();
    simulation.sim_before = true;
    assert_eq!(
        options,
        HibouAnalyzeOptions::new(
            SearchStrategy::DFS,
            vec![AnalysisFilter::MaxProcessDepth(3), AnalysisFilter::MaxLoopInstanciation(2)],
            DeclaredPriorities {
                specific: AnalysisPriorities::new(0, 2, 0, 0, 1, 0),
                randomize: false
            },
            AnalysisParameterization::new(Some(simulation), false),
            false,
            None,
        )
    );
    let simple = parse_analyze_options(&vec![
        AnalyzeOption::Simulate(Some(vec![SimulationOption::Reset(true)])),
        AnalyzeOption::Simulate(None),
        AnalyzeOption::Goal(Some(AnalysisGlobalVerdict::Pass)),
    ]);
    assert_eq!(simple.ana_param, AnalysisParameterization::new(Some(plain_simulation()), true));
    assert_eq!(simple.goal, Some(AnalysisGlobalVerdict::Pass));
    assert_eq!(simple.strategy, SearchStrategy::BFS);
}
