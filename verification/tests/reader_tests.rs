use vrp_core::domain::Dimensions;
use vrp_core::reader::{
    add_capacity_module, add_skills, add_work_balance_module, can_map, create_constraint_pipeline,
    create_extras, create_objective, get_problem_properties, map_objectives, map_to_problem,
    ApiFleet, ApiJob, ApiObjective, ApiProblem, Config, ConstraintModuleKind, ConstraintPipeline,
    Features, JobTask, Matrix, MultiObjective, ObjectiveKind, Objectives, Plan, PriorityFeature,
    ProblemProperties, VehicleBreak, VehicleCargoPlace, VehicleShift, VehicleType,
    BALANCE_PENALTY, BREAK_EXTRA_COST, DEFAULT_PRIORITY_COST, RELOAD_THRESHOLD,
};

fn delivery(id: &str, demand: Option<Vec<i32>>) -> ApiJob {
    ApiJob {
        id: id.to_string(),
        pickups: None,
        deliveries: Some(vec![JobTask { demand }]),
        skills: None,
        priority: None,
        compatibility: None,
        group: None,
    }
}

fn shift() -> VehicleShift {
    VehicleShift { breaks: None, reloads: None }
}

fn vehicle(capacity: Vec<i32>, shifts: Vec<VehicleShift>) -> VehicleType {
    VehicleType { capacity, shifts }
}

fn problem(jobs: Vec<ApiJob>, vehicles: Vec<VehicleType>) -> ApiProblem {
    ApiProblem { plan: Plan { jobs }, fleet: ApiFleet { vehicles }, config: None, objectives: None }
}

fn simple() -> ApiProblem {
    problem(
        vec![delivery("job1", Some(vec![1])), delivery("job2", Some(vec![1]))],
        vec![vehicle(vec![2], vec![shift()])],
    )
}

fn plain() -> ProblemProperties {
    ProblemProperties {
        has_multi_dimen_capacity: false,
        has_breaks: false,
        has_skills: false,
        has_unreachable_locations: false,
        has_reload: false,
        priority: None,
        has_compatibility: false,
        has_group: false,
    }
}

fn modules(pipeline: &ConstraintPipeline) -> Vec<ConstraintModuleKind> {
    (0..pipeline.len()).map(|i| pipeline.get(i).unwrap()).collect()
}

fn transport() -> ConstraintModuleKind {
    ConstraintModuleKind::Transport { time_code: 1, distance_code: 2, duration_code: 3 }
}

fn capacity(multi: bool, reload: bool) -> ConstraintModuleKind {
    ConstraintModuleKind::Capacity {
        code: 4,
        is_multi_dimensional: multi,
        reload_threshold: if reload { Some(0.9f64.to_bits()) } else { None },
    }
}

fn same(a: &ProblemProperties, b: &ProblemProperties) -> bool {
    a.has_multi_dimen_capacity == b.has_multi_dimen_capacity
        && a.has_breaks == b.has_breaks
        && a.has_skills == b.has_skills
        && a.has_unreachable_locations == b.has_unreachable_locations
        && a.has_reload == b.has_reload
        && a.priority == b.priority
        && a.has_compatibility == b.has_compatibility
        && a.has_group == b.has_group
}

#[test]
fn the_constants_are_the_doubles_they_stand_for() {
    assert_eq!(f64::from_bits(DEFAULT_PRIORITY_COST), 100.0);
    assert_eq!(f64::from_bits(BREAK_EXTRA_COST), -100.0);
    assert_eq!(f64::from_bits(RELOAD_THRESHOLD), 0.9);
    assert_eq!(f64::from_bits(BALANCE_PENALTY), 1000.0);
}

#[test]
fn a_simple_problem_uses_no_feature() {
    assert!(same(&get_problem_properties(&simple(), &vec![]), &plain()));
    assert!(same(&get_problem_properties(&problem(vec![], vec![]), &vec![]), &plain()));
}

#[test]
fn a_capacity_of_two_dimensions_is_multi_dimensional() {
    let p = problem(vec![], vec![vehicle(vec![1, 2], vec![])]);
    assert!(get_problem_properties(&p, &vec![]).has_multi_dimen_capacity);
    let p = problem(vec![], vec![vehicle(vec![1], vec![]), vehicle(vec![], vec![])]);
    assert!(!get_problem_properties(&p, &vec![]).has_multi_dimen_capacity);
}

#[test]
fn a_demand_of_two_dimensions_is_multi_dimensional() {
    let p = problem(vec![delivery("a", Some(vec![1])), delivery("b", Some(vec![1, 0]))], vec![]);
    assert!(get_problem_properties(&p, &vec![]).has_multi_dimen_capacity);
    let mut pickup = delivery("c", None);
    pickup.pickups = Some(vec![JobTask { demand: None }, JobTask { demand: Some(vec![1, 2, 3]) }]);
    assert!(get_problem_properties(&problem(vec![pickup], vec![]), &vec![]).has_multi_dimen_capacity);
    let p = problem(vec![delivery("a", None), delivery("b", Some(vec![]))], vec![]);
    assert!(!get_problem_properties(&p, &vec![]).has_multi_dimen_capacity);
}

#[test]
fn breaks_and_reloads_count_only_where_there_is_one() {
    let empty = VehicleShift { breaks: Some(vec![]), reloads: Some(vec![]) };
    let p = problem(vec![], vec![vehicle(vec![1], vec![shift(), empty])]);
    let props = get_problem_properties(&p, &vec![]);
    assert!(!props.has_breaks && !props.has_reload);
    let with_break = VehicleShift { breaks: Some(vec![VehicleBreak { duration: 2 }]), reloads: None };
    let p = problem(vec![], vec![vehicle(vec![1], vec![]), vehicle(vec![1], vec![shift(), with_break])]);
    let props = get_problem_properties(&p, &vec![]);
    assert!(props.has_breaks && !props.has_reload);
    let with_reload =
        VehicleShift { breaks: None, reloads: Some(vec![VehicleCargoPlace { duration: 2 }]) };
    let p = problem(vec![], vec![vehicle(vec![1], vec![with_reload])]);
    let props = get_problem_properties(&p, &vec![]);
    assert!(!props.has_breaks && props.has_reload);
}

#[test]
fn skills_count_even_where_the_list_is_empty() {
    let mut job = delivery("a", None);
    job.skills = Some(vec![]);
    assert!(get_problem_properties(&problem(vec![delivery("b", None), job], vec![]), &vec![]).has_skills);
}

#[test]
fn error_codes_mark_unreachable_locations() {
    let none = Matrix { error_codes: None };
    let some = Matrix { error_codes: Some(vec![]) };
    assert!(!get_problem_properties(&simple(), &vec![none]).has_unreachable_locations);
    let none = Matrix { error_codes: None };
    assert!(get_problem_properties(&simple(), &vec![none, some]).has_unreachable_locations);
}

#[test]
fn priority_counts_from_two_on_and_costs_a_hundred_by_default() {
    let mut first = delivery("a", None);
    first.priority = Some(1);
    assert_eq!(get_problem_properties(&problem(vec![first], vec![]), &vec![]).priority, None);
    let mut second = delivery("b", None);
    second.priority = Some(2);
    let p = problem(vec![delivery("a", None), second], vec![]);
    assert_eq!(get_problem_properties(&p, &vec![]).priority, Some(100.0f64.to_bits()));
}

#[test]
fn the_configured_priority_cost_is_taken() {
    let mut low = delivery("b", None);
    low.priority = Some(3);
    let mut p = problem(vec![low], vec![]);
    p.config = Some(Config { features: None });
    assert_eq!(get_problem_properties(&p, &vec![]).priority, Some(100.0f64.to_bits()));
    p.config = Some(Config { features: Some(Features { priority: None }) });
    assert_eq!(get_problem_properties(&p, &vec![]).priority, Some(100.0f64.to_bits()));
    p.config = Some(Config {
        features: Some(Features { priority: Some(PriorityFeature { weight_cost: 7.5f64.to_bits() }) }),
    });
    assert_eq!(get_problem_properties(&p, &vec![]).priority, Some(7.5f64.to_bits()));
    p.plan.jobs[0].priority = Some(1);
    assert_eq!(get_problem_properties(&p, &vec![]).priority, None);
}

#[test]
fn the_capacity_module_follows_the_features() {
    for multi in [false, true] {
        for reload in [false, true] {
            let mut pipeline = ConstraintPipeline::new();
            let props = ProblemProperties {
                has_multi_dimen_capacity: multi,
                has_reload: reload,
                ..plain()
            };
            add_capacity_module(&mut pipeline, &props);
            assert_eq!(modules(&pipeline), vec![capacity(multi, reload)]);
        }
    }
}

#[test]
fn the_work_balance_module_follows_the_features() {
    for multi in [false, true] {
        let mut pipeline = ConstraintPipeline::new();
        pipeline.add_module(ConstraintModuleKind::FleetUsageMinimized);
        let props = ProblemProperties { has_multi_dimen_capacity: multi, ..plain() };
        add_work_balance_module(&mut pipeline, &props);
        assert_eq!(
            modules(&pipeline),
            vec![
                ConstraintModuleKind::FleetUsageMinimized,
                ConstraintModuleKind::WorkBalance {
                    penalty: 1000.0f64.to_bits(),
                    is_multi_dimensional: multi
                }
            ]
        );
    }
}

#[test]
fn the_smallest_pipeline_has_transport_and_capacity() {
    let pipeline = create_constraint_pipeline(&plain(), false);
    assert_eq!(modules(&pipeline), vec![transport(), capacity(false, false)]);
    assert!(pipeline.get(2).is_none());
}

#[test]
fn the_fullest_pipeline_has_every_module_in_its_order() {
    let props = ProblemProperties {
        has_multi_dimen_capacity: true,
        has_breaks: true,
        has_skills: true,
        has_unreachable_locations: true,
        has_reload: true,
        priority: Some(50.0f64.to_bits()),
        has_compatibility: true,
        has_group: true,
    };
    let pipeline = create_constraint_pipeline(&props, true);
    assert_eq!(
        modules(&pipeline),
        vec![
            transport(),
            capacity(true, true),
            ConstraintModuleKind::Break {
                code: 5,
                extra_cost: Some((-100.0f64).to_bits()),
                demote: false
            },
            ConstraintModuleKind::Compatibility { code: 15, state_key: 1015 },
            ConstraintModuleKind::Group { code: 14, state_key: 1014 },
            ConstraintModuleKind::Skills { code: 6 },
            ConstraintModuleKind::Priority { cost: 50.0f64.to_bits(), code: 9 },
            ConstraintModuleKind::StrictLocking { code: 7 },
            ConstraintModuleKind::Reachable { code: 8 },
        ]
    );
}

#[test]
fn each_feature_adds_its_module_alone() {
    let with = |props: ProblemProperties, locks: bool| modules(&create_constraint_pipeline(&props, locks));
    assert_eq!(with(ProblemProperties { has_skills: true, ..plain() }, false).len(), 3);
    assert_eq!(
        with(ProblemProperties { has_skills: true, ..plain() }, false)[2],
        ConstraintModuleKind::Skills { code: 6 }
    );
    assert_eq!(with(plain(), true)[2], ConstraintModuleKind::StrictLocking { code: 7 });
    assert_eq!(
        with(ProblemProperties { has_unreachable_locations: true, ..plain() }, false)[2],
        ConstraintModuleKind::Reachable { code: 8 }
    );
}

fn same_objective(o: &MultiObjective, p: &[ObjectiveKind], s: &[ObjectiveKind]) -> bool {
    o.primary == p && o.secondary == s
}

#[test]
fn without_goals_the_objective_is_the_default() {
    let mut pipeline = ConstraintPipeline::new();
    let objective = create_objective(&None, &mut pipeline, &plain());
    assert!(same_objective(
        &objective,
        &[ObjectiveKind::TotalUnassignedJobs, ObjectiveKind::TotalRoutes],
        &[ObjectiveKind::TotalTransportCost]
    ));
    assert_eq!(objective.primary_cost_idx, None);
    assert_eq!(objective.secondary_cost_idx, Some(0));
    assert_eq!(objective.cost_objective(), Some(ObjectiveKind::TotalTransportCost));
    assert_eq!(objective.size(), Some(3));
    assert_eq!(modules(&pipeline), vec![ConstraintModuleKind::FleetUsageMinimized]);
}

#[test]
fn goals_are_mapped_to_terms_and_modules() {
    let goals = Some(Objectives {
        primary: vec![ApiObjective::MinimizeUnassignedJobs, ApiObjective::MinimizeTours],
        secondary: Some(vec![ApiObjective::BalanceMaxLoad, ApiObjective::MinimizeCost]),
    });
    let mut pipeline = ConstraintPipeline::new();
    pipeline.add_module(transport());
    let props = ProblemProperties { has_multi_dimen_capacity: true, ..plain() };
    let objective = create_objective(&goals, &mut pipeline, &props);
    assert!(same_objective(
        &objective,
        &[ObjectiveKind::TotalUnassignedJobs, ObjectiveKind::TotalRoutes],
        &[ObjectiveKind::TotalTransportCost]
    ));
    assert_eq!(objective.primary_cost_idx, None);
    assert_eq!(objective.secondary_cost_idx, Some(1));
    assert_eq!(objective.cost_objective(), None);
    assert_eq!(
        modules(&pipeline),
        vec![
            transport(),
            ConstraintModuleKind::FleetUsageMinimized,
            ConstraintModuleKind::WorkBalance {
                penalty: 1000.0f64.to_bits(),
                is_multi_dimensional: true
            },
        ]
    );
}

#[test]
fn goals_without_secondary_ones_are_mapped() {
    let goals = Some(Objectives { primary: vec![ApiObjective::MinimizeCost], secondary: None });
    let mut pipeline = ConstraintPipeline::new();
    let objective = create_objective(&goals, &mut pipeline, &plain());
    assert!(same_objective(&objective, &[ObjectiveKind::TotalTransportCost], &[]));
    assert_eq!(objective.primary_cost_idx, Some(0));
    assert_eq!(objective.secondary_cost_idx, None);
    assert_eq!(objective.cost_objective(), Some(ObjectiveKind::TotalTransportCost));
    assert_eq!(objective.size(), Some(1));
    assert!(modules(&pipeline).is_empty());
}

#[test]
fn the_last_cost_goal_marks_the_place_of_the_cost() {
    let goals = vec![
        ApiObjective::MinimizeCost,
        ApiObjective::MinimizeTours,
        ApiObjective::MinimizeCost,
        ApiObjective::MinimizeUnassignedJobs,
    ];
    let mut pipeline = ConstraintPipeline::new();
    let (terms, cost_idx) = map_objectives(&goals, &mut pipeline, &plain());
    assert_eq!(
        terms,
        vec![
            ObjectiveKind::TotalTransportCost,
            ObjectiveKind::TotalRoutes,
            ObjectiveKind::TotalTransportCost,
            ObjectiveKind::TotalUnassignedJobs
        ]
    );
    assert_eq!(cost_idx, Some(2));
    assert_eq!(modules(&pipeline), vec![ConstraintModuleKind::FleetUsageMinimized]);
    let (terms, cost_idx) = map_objectives(&vec![], &mut pipeline, &plain());
    assert!(terms.is_empty());
    assert_eq!(cost_idx, None);
}

#[test]
fn the_cost_term_needs_its_marked_places() {
    let objective = |p: Option<usize>, s: Option<usize>| MultiObjective {
        primary: vec![ObjectiveKind::TotalRoutes, ObjectiveKind::TotalTransportCost],
        secondary: vec![ObjectiveKind::TotalUnassignedJobs],
        primary_cost_idx: p,
        secondary_cost_idx: s,
    };
    assert_eq!(objective(Some(1), None).cost_objective(), Some(ObjectiveKind::TotalTransportCost));
    assert_eq!(objective(Some(0), Some(0)).cost_objective(), Some(ObjectiveKind::TotalRoutes));
    assert_eq!(objective(None, Some(0)).cost_objective(), Some(ObjectiveKind::TotalUnassignedJobs));
    assert_eq!(objective(None, None).cost_objective(), None);
    assert_eq!(objective(Some(2), None).cost_objective(), None);
    assert_eq!(objective(None, Some(1)).cost_objective(), None);
    assert_eq!(objective(Some(1), Some(1)).cost_objective(), None);
}

#[test]
fn balancing_activities_cannot_be_mapped() {
    assert!(can_map(&vec![]));
    assert!(can_map(&vec![ApiObjective::MinimizeCost, ApiObjective::BalanceMaxLoad]));
    assert!(!can_map(&vec![ApiObjective::MinimizeCost, ApiObjective::BalanceActivities]));
}

#[test]
fn the_extras_tell_how_capacity_is_measured() {
    let name = "capacity_type".to_string();
    let extras = create_extras(&plain());
    assert_eq!(extras.get(&name), Some(&"single".to_string()));
    assert_eq!(extras.get(&"coord_index".to_string()), None);
    let extras = create_extras(&ProblemProperties { has_multi_dimen_capacity: true, ..plain() });
    assert_eq!(extras.get(&name), Some(&"multi".to_string()));
}

#[test]
fn skills_are_set_each_once() {
    let mut dimens = Dimensions { compatibility: Some("a".to_string()), skills: None };
    add_skills(&mut dimens, &None);
    assert_eq!(dimens.skills, None);
    let list = vec!["b", "a", "b", "c", "a"].into_iter().map(|s| s.to_string()).collect();
    add_skills(&mut dimens, &Some(list));
    let mut skills = dimens.skills.clone().unwrap();
    skills.sort();
    assert_eq!(skills, vec!["a".to_string(), "b".to_string(), "c".to_string()]);
    assert_eq!(dimens.compatibility, Some("a".to_string()));
    add_skills(&mut dimens, &None);
    assert_eq!(dimens.skills.as_ref().map(|s| s.len()), Some(3));
    add_skills(&mut dimens, &Some(vec![]));
    assert_eq!(dimens.skills, Some(vec![]));
}

#[test]
fn a_problem_definition_is_mapped_as_a_whole() {
    let mut p = simple();
    p.plan.jobs[1].skills = Some(vec!["unique".to_string()]);
    p.objectives = Some(Objectives {
        primary: vec![ApiObjective::MinimizeUnassignedJobs],
        secondary: Some(vec![ApiObjective::MinimizeTours, ApiObjective::MinimizeCost]),
    });
    let parts = map_to_problem(&p, &vec![Matrix { error_codes: None }], true);
    assert!(same(&parts.properties, &ProblemProperties { has_skills: true, ..plain() }));
    assert_eq!(
        modules(&parts.constraint),
        vec![
            transport(),
            capacity(false, false),
            ConstraintModuleKind::Skills { code: 6 },
            ConstraintModuleKind::StrictLocking { code: 7 },
            ConstraintModuleKind::FleetUsageMinimized,
        ]
    );
    assert_eq!(parts.objective.cost_objective(), Some(ObjectiveKind::TotalTransportCost));
    assert_eq!(parts.objective.size(), Some(3));
    assert_eq!(parts.extras.get(&"capacity_type".to_string()), Some(&"single".to_string()));
}

#[test]
fn a_tag_on_one_job_calls_for_the_compatibility_module() {
    let mut tagged = delivery("b", None);
    tagged.compatibility = Some("a".to_string());
    let p = problem(vec![delivery("a", None), tagged], vec![vehicle(vec![1], vec![shift()])]);
    let props = get_problem_properties(&p, &vec![]);
    assert!(props.has_compatibility);
    assert!(!props.has_group);
    assert_eq!(
        modules(&create_constraint_pipeline(&props, false)),
        vec![
            transport(),
            capacity(false, false),
            ConstraintModuleKind::Compatibility { code: 15, state_key: 1015 },
        ]
    );
    let parts = map_to_problem(&p, &vec![], false);
    let kinds = modules(&parts.constraint);
    assert!(kinds.contains(&ConstraintModuleKind::Compatibility { code: 15, state_key: 1015 }));
}

#[test]
fn without_tags_there_is_no_compatibility_module() {
    let props = get_problem_properties(&simple(), &vec![]);
    assert!(!props.has_compatibility);
    let kinds = modules(&create_constraint_pipeline(&props, true));
    assert!(kinds.iter().all(|kind| !matches!(kind, ConstraintModuleKind::Compatibility { .. })));
    assert!(kinds.iter().all(|kind| !matches!(kind, ConstraintModuleKind::Group { .. })));
}

#[test]
fn a_group_on_one_job_calls_for_the_group_module() {
    let mut grouped = delivery("b", None);
    grouped.group = Some("g".to_string());
    let p = problem(vec![grouped], vec![]);
    let props = get_problem_properties(&p, &vec![]);
    assert!(props.has_group);
    assert!(!props.has_compatibility);
    assert_eq!(
        modules(&create_constraint_pipeline(&props, false)),
        vec![
            transport(),
            capacity(false, false),
            ConstraintModuleKind::Group { code: 14, state_key: 1014 },
        ]
    );
}
