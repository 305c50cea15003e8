use vrp_core::compatibility::{
    get_job_compatibility, get_route_compatibility, CompatibilityHardRouteConstraint,
    CompatibilityModule, ConstraintVariant, RouteConstraintViolation, COMPATIBILITY_DIMEN_KEY,
};
use vrp_core::domain::{Actor, Dimensions, Job};
use vrp_core::reader::{
    create_constraint_pipeline, get_problem_properties, ApiFleet, ApiJob, ApiProblem,
    ConstraintPipeline, Plan,
};
use vrp_core::solution::{RouteContext, SolutionContext};
use vrp_core::state::RouteState;

const CODE: i32 = 13;
const KEY: i32 = 40;

fn job(id: u64, tag: Option<&str>) -> Job {
    Job { id, dimens: Dimensions { compatibility: tag.map(|t| t.to_string()), skills: None } }
}

fn actor(vehicle: u64) -> Actor {
    Actor { vehicle, driver: 1, shift: 0 }
}

fn route(jobs: Vec<Job>) -> RouteContext {
    RouteContext { actor: actor(1), jobs, state: RouteState::new() }
}

fn constraint() -> CompatibilityHardRouteConstraint {
    CompatibilityHardRouteConstraint { code: CODE, state_key: KEY }
}

fn violation() -> Option<RouteConstraintViolation> {
    Some(RouteConstraintViolation { code: CODE })
}

#[test]
fn a_new_module_has_one_constraint_and_its_keys() {
    let module = CompatibilityModule::new(CODE, KEY);
    assert_eq!(module.state_keys(), &vec![KEY]);
    assert_eq!(module.dimen_keys(), &vec![COMPATIBILITY_DIMEN_KEY]);
    assert_eq!(module.get_constraints(), &vec![ConstraintVariant::HardRoute(constraint())]);
}

#[test]
fn the_tag_of_a_job_is_its_compatibility() {
    assert_eq!(get_job_compatibility(&job(1, Some("a"))), Some(&"a".to_string()));
    assert_eq!(get_job_compatibility(&job(1, None)), None);
}

#[test]
fn the_tag_of_a_route_is_that_of_its_first_tagged_job() {
    assert_eq!(get_route_compatibility(&route(vec![])), None);
    assert_eq!(get_route_compatibility(&route(vec![job(1, None), job(2, None)])), None);
    let tagged = route(vec![job(1, None), job(2, Some("b")), job(3, Some("c"))]);
    assert_eq!(get_route_compatibility(&tagged), Some("b".to_string()));
}

#[test]
fn accepting_the_route_state_notes_the_tag() {
    let module = CompatibilityModule::new(CODE, KEY);
    let mut ctx = route(vec![job(1, None), job(2, Some("a"))]);
    module.accept_route_state(&mut ctx);
    assert_eq!(ctx.state.get_route_state(KEY), Some(&Some("a".to_string())));
    assert_eq!(ctx.state.get_route_state(KEY + 1), None);
}

#[test]
fn accepting_the_route_state_makes_no_entry_without_a_tag() {
    let module = CompatibilityModule::new(CODE, KEY);
    let mut ctx = route(vec![job(1, None)]);
    module.accept_route_state(&mut ctx);
    assert_eq!(ctx.state.get_route_state(KEY), None);
}

#[test]
fn accepting_the_route_state_empties_an_entry_without_a_tag() {
    let module = CompatibilityModule::new(CODE, KEY);
    let mut ctx = route(vec![job(1, Some("a"))]);
    module.accept_route_state(&mut ctx);
    ctx.jobs.clear();
    module.accept_route_state(&mut ctx);
    assert_eq!(ctx.state.get_route_state(KEY), Some(&None));
}

#[test]
fn a_job_without_a_tag_goes_anywhere() {
    let module = CompatibilityModule::new(CODE, KEY);
    let mut ctx = route(vec![job(1, Some("a"))]);
    module.accept_route_state(&mut ctx);
    assert_eq!(constraint().evaluate_job(&ctx, &job(2, None)), None);
}

#[test]
fn a_job_goes_into_a_route_without_a_tag() {
    let module = CompatibilityModule::new(CODE, KEY);
    let mut ctx = route(vec![job(1, None)]);
    assert_eq!(constraint().evaluate_job(&ctx, &job(2, Some("a"))), None);
    module.accept_route_state(&mut ctx);
    assert_eq!(constraint().evaluate_job(&ctx, &job(2, Some("a"))), None);
    let mut emptied = route(vec![job(1, Some("b"))]);
    module.accept_route_state(&mut emptied);
    emptied.jobs.clear();
    module.accept_route_state(&mut emptied);
    assert_eq!(constraint().evaluate_job(&emptied, &job(2, Some("a"))), None);
}

#[test]
fn a_job_goes_into_a_route_with_its_tag_only() {
    let module = CompatibilityModule::new(CODE, KEY);
    let mut ctx = route(vec![job(1, Some("a"))]);
    module.accept_route_state(&mut ctx);
    assert_eq!(constraint().evaluate_job(&ctx, &job(2, Some("a"))), None);
    assert_eq!(constraint().evaluate_job(&ctx, &job(2, Some("b"))), violation());
    assert_eq!(constraint().evaluate_job(&ctx, &job(2, Some(""))), violation());
}

#[test]
fn the_constraint_reads_the_state_under_its_own_key() {
    let module = CompatibilityModule::new(CODE, KEY + 1);
    let mut ctx = route(vec![job(1, Some("a"))]);
    module.accept_route_state(&mut ctx);
    assert_eq!(constraint().evaluate_job(&ctx, &job(2, Some("b"))), None);
}

#[test]
fn jobs_merge_with_the_same_tag_or_without_tags() {
    let module = CompatibilityModule::new(CODE, KEY);
    assert_eq!(module.merge(job(1, None), job(2, None)).ok().map(|j| j.id), Some(1));
    assert_eq!(module.merge(job(1, Some("a")), job(2, Some("a"))).ok().map(|j| j.id), Some(1));
    assert_eq!(module.merge(job(1, Some("a")), job(2, Some("b"))).err(), Some(CODE));
    assert_eq!(module.merge(job(1, Some("a")), job(2, None)).err(), Some(CODE));
    assert_eq!(module.merge(job(1, None), job(2, Some("a"))).err(), Some(CODE));
}

#[test]
fn accepting_an_insertion_notes_the_tag_of_a_tagged_job() {
    let module = CompatibilityModule::new(CODE, KEY);
    let mut solution =
        SolutionContext::new(vec![job(1, None), job(2, Some("a"))], vec![actor(1)]).unwrap();
    solution.open_route();
    solution.insert_job(0, 0, 0);
    module.accept_insertion(&mut solution, 0, &job(1, None));
    assert_eq!(solution.routes[0].state.get_route_state(KEY), None);
    solution.insert_job(0, 0, 1);
    module.accept_insertion(&mut solution, 0, &job(2, Some("a")));
    assert_eq!(solution.routes[0].state.get_route_state(KEY), Some(&Some("a".to_string())));
    assert_eq!(solution.routes[0].jobs.len(), 2);
    assert_eq!(solution.routes[0].actor, actor(1));
}

#[test]
fn accepting_the_solution_state_changes_nothing() {
    let module = CompatibilityModule::new(CODE, KEY);
    let mut solution = SolutionContext::new(vec![job(1, Some("a"))], vec![actor(1)]).unwrap();
    module.accept_solution_state(&mut solution);
    assert_eq!(solution.required.len(), 1);
    assert!(solution.routes.is_empty());
    assert_eq!(solution.registry.available, vec![actor(1)]);
}

fn insert_where_allowed(solution: &mut SolutionContext, module: &CompatibilityModule) -> bool {
    let check = constraint();
    let mut route_index = None;
    for (index, ctx) in solution.routes.iter().enumerate() {
        if check.evaluate_job(ctx, &solution.required[0]).is_none() {
            route_index = Some(index);
            break;
        }
    }
    let route_index = match route_index.or_else(|| solution.open_route()) {
        Some(index) => index,
        None => return false,
    };
    let position = solution.routes[route_index].jobs.len();
    solution.insert_job(0, route_index, position);
    let inserted = job(0, solution.routes[route_index].jobs[position].dimens.compatibility.as_deref());
    module.accept_insertion(solution, route_index, &inserted);
    true
}

#[test]
fn two_jobs_with_different_tags_do_not_share_a_tour() {
    let module = CompatibilityModule::new(CODE, KEY);
    let mut solution = SolutionContext::new(
        vec![job(1, Some("a")), job(2, Some("b"))],
        vec![actor(1), actor(2)],
    )
    .unwrap();
    assert!(insert_where_allowed(&mut solution, &module));
    assert!(insert_where_allowed(&mut solution, &module));
    assert!(solution.required.is_empty());
    assert_eq!(solution.routes.len(), 2);
    assert_eq!(solution.routes[0].jobs[0].id, 1);
    assert_eq!(solution.routes[1].jobs[0].id, 2);
}

#[test]
fn jobs_with_one_tag_share_a_tour() {
    let module = CompatibilityModule::new(CODE, KEY);
    let mut solution = SolutionContext::new(
        vec![job(1, Some("a")), job(2, None), job(3, Some("a"))],
        vec![actor(1), actor(2)],
    )
    .unwrap();
    for _ in 0..3 {
        assert!(insert_where_allowed(&mut solution, &module));
    }
    assert_eq!(solution.routes.len(), 1);
    assert_eq!(solution.routes[0].jobs.len(), 3);
}

#[test]
fn a_job_stays_unassigned_where_no_route_takes_it() {
    let module = CompatibilityModule::new(CODE, KEY);
    let mut solution =
        SolutionContext::new(vec![job(1, Some("a")), job(2, Some("b"))], vec![actor(1)]).unwrap();
    assert!(insert_where_allowed(&mut solution, &module));
    assert!(!insert_where_allowed(&mut solution, &module));
    assert_eq!(solution.required.len(), 1);
    assert_eq!(solution.required[0].id, 2);
    assert_eq!(solution.routes.len(), 1);
}

#[test]
fn every_placed_job_passes_the_constraint() {
    let module = CompatibilityModule::new(CODE, KEY);
    let tags = [Some("a"), None, Some("b"), Some("a"), None, Some("c"), Some("b")];
    let jobs = tags.iter().enumerate().map(|(i, t)| job(i as u64, *t)).collect();
    let mut solution =
        SolutionContext::new(jobs, vec![actor(1), actor(2), actor(3), actor(4)]).unwrap();
    while !solution.required.is_empty() {
        assert!(insert_where_allowed(&mut solution, &module));
    }
    for ctx in solution.routes.iter() {
        for placed in ctx.jobs.iter() {
            assert_eq!(constraint().evaluate_job(ctx, placed), None);
        }
    }
    assert_eq!(solution.routes.len(), 3);
}

#[test]
fn a_job_without_a_tag_is_accepted_for_any_index() {
    let module = CompatibilityModule::new(CODE, KEY);
    let mut solution = SolutionContext::new(vec![job(1, None)], vec![actor(1)]).unwrap();
    module.accept_insertion(&mut solution, 7, &job(1, None));
    assert_eq!(solution.required.len(), 1);
    assert!(solution.routes.is_empty());
    assert_eq!(solution.registry.available, vec![actor(1)]);
}

fn api_job(id: &str, tag: Option<&str>) -> ApiJob {
    ApiJob {
        id: id.to_string(),
        pickups: None,
        deliveries: None,
        skills: None,
        priority: None,
        compatibility: tag.map(|t| t.to_string()),
        group: None,
    }
}

fn pipeline_of(jobs: Vec<ApiJob>) -> ConstraintPipeline {
    let problem = ApiProblem {
        plan: Plan { jobs },
        fleet: ApiFleet { vehicles: vec![] },
        config: None,
        objectives: None,
    };
    create_constraint_pipeline(&get_problem_properties(&problem, &vec![]), false)
}

#[test]
fn a_problem_without_tags_has_no_compatibility_module() {
    let pipeline = pipeline_of(vec![api_job("job1", None), api_job("job2", None)]);
    assert!(CompatibilityModule::from_pipeline(&pipeline).is_none());
    assert!(CompatibilityModule::from_pipeline(&ConstraintPipeline::new()).is_none());
}

#[test]
fn tagged_jobs_of_a_problem_end_up_in_two_routes() {
    let pipeline = pipeline_of(vec![api_job("job1", Some("a")), api_job("job2", Some("b"))]);
    let module = CompatibilityModule::from_pipeline(&pipeline).unwrap();
    assert_eq!(module.state_keys(), &vec![1015]);
    let check = match module.get_constraints()[0] {
        ConstraintVariant::HardRoute(check) => check,
    };
    assert_eq!(check, CompatibilityHardRouteConstraint { code: 15, state_key: 1015 });
    let mut solution = SolutionContext::new(
        vec![job(1, Some("a")), job(2, Some("b"))],
        vec![actor(1), actor(2)],
    )
    .unwrap();
    while !solution.required.is_empty() {
        let mut target = None;
        for (index, ctx) in solution.routes.iter().enumerate() {
            if check.evaluate_job(ctx, &solution.required[0]).is_none() {
                target = Some(index);
                break;
            }
        }
        let route_index = target.or_else(|| solution.open_route()).unwrap();
        solution.insert_job(0, route_index, 0);
        let inserted = job(0, solution.routes[route_index].jobs[0].dimens.compatibility.as_deref());
        module.accept_insertion(&mut solution, route_index, &inserted);
    }
    assert_eq!(solution.routes.len(), 2);
}

#[test]
fn the_module_inserts_only_what_the_constraint_lets_pass() {
    let module = CompatibilityModule::new(CODE, KEY);
    let mut solution = SolutionContext::new(
        vec![job(1, Some("a")), job(2, Some("b")), job(3, None), job(4, Some("a"))],
        vec![actor(1), actor(2)],
    )
    .unwrap();
    solution.open_route();
    assert_eq!(module.insert_job(&mut solution, 0, 0, 0), None);
    assert_eq!(solution.routes[0].state.get_route_state(KEY), Some(&Some("a".to_string())));
    assert_eq!(module.insert_job(&mut solution, 0, 0, 0), violation());
    assert_eq!(solution.required.len(), 3);
    assert_eq!(solution.routes[0].jobs.len(), 1);
    assert_eq!(module.insert_job(&mut solution, 1, 0, 0), None);
    assert_eq!(module.insert_job(&mut solution, 1, 0, 2), None);
    let ids: Vec<u64> = solution.routes[0].jobs.iter().map(|j| j.id).collect();
    assert_eq!(ids, vec![3, 1, 4]);
    solution.open_route();
    assert_eq!(module.insert_job(&mut solution, 0, 1, 0), None);
    assert!(solution.required.is_empty());
    for ctx in solution.routes.iter() {
        for placed in ctx.jobs.iter() {
            assert_eq!(constraint().evaluate_job(ctx, placed), None);
        }
    }
}
