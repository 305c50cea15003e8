use vrp_core::domain::{Actor, Dimensions, Job};
use vrp_core::extras::Extras;
use vrp_core::insertion::{
    BestResultSelector, Candidates, InsertionPosition, InsertionResult, PositionInsertionEvaluator,
    PositionOutcome,
};
use vrp_core::solution::SolutionContext;
use vrp_core::unassigned::UnassignedJobs;

fn job(id: u64) -> Job {
    Job { id, dimens: Dimensions { compatibility: None, skills: None } }
}

fn actor(vehicle: u64) -> Actor {
    Actor { vehicle, driver: 1, shift: 0 }
}

fn ids(jobs: &Vec<Job>) -> Vec<u64> {
    jobs.iter().map(|j| j.id).collect()
}

fn all_ids(solution: &SolutionContext) -> Vec<u64> {
    let mut all = ids(&solution.required);
    all.extend(ids(&solution.ignored));
    all.extend(ids(&solution.locked));
    for route in solution.routes.iter() {
        all.extend(ids(&route.jobs));
    }
    all.sort();
    all
}

fn all_actors(solution: &SolutionContext) -> Vec<u64> {
    let mut all: Vec<u64> = solution.routes.iter().map(|r| r.actor.vehicle).collect();
    all.extend(solution.registry.available.iter().map(|a| a.vehicle));
    all.sort();
    all
}

fn start() -> SolutionContext {
    SolutionContext::new(vec![job(1), job(2), job(3), job(4)], vec![actor(10), actor(20)]).unwrap()
}

#[test]
fn at_the_start_every_job_waits_and_every_actor_is_free() {
    let solution = start();
    assert_eq!(ids(&solution.required), vec![1, 2, 3, 4]);
    assert!(solution.ignored.is_empty());
    assert!(solution.locked.is_empty());
    assert!(solution.routes.is_empty());
    assert_eq!(solution.registry.available, vec![actor(10), actor(20)]);
}

#[test]
fn there_is_no_solution_for_jobs_with_one_identifier() {
    assert!(SolutionContext::new(vec![job(1), job(2), job(1)], vec![actor(10)]).is_none());
}

#[test]
fn there_is_no_solution_for_an_actor_named_twice() {
    assert!(SolutionContext::new(vec![job(1)], vec![actor(10), actor(20), actor(10)]).is_none());
}

#[test]
fn a_solution_may_have_no_jobs_and_no_actors() {
    let solution = SolutionContext::new(vec![], vec![]).unwrap();
    assert!(all_ids(&solution).is_empty());
    assert!(all_actors(&solution).is_empty());
}

#[test]
fn opening_a_route_takes_the_next_free_actor() {
    let mut solution = start();
    assert_eq!(solution.open_route(), Some(0));
    assert_eq!(solution.routes.len(), 1);
    assert_eq!(solution.routes[0].actor, actor(10));
    assert!(solution.routes[0].jobs.is_empty());
    assert_eq!(solution.registry.available, vec![actor(20)]);
    assert_eq!(solution.open_route(), Some(1));
    assert_eq!(solution.routes[1].actor, actor(20));
    assert_eq!(solution.open_route(), None);
    assert_eq!(solution.routes.len(), 2);
    assert_eq!(all_actors(&solution), vec![10, 20]);
}

#[test]
fn inserting_moves_a_job_from_waiting_into_the_tour() {
    let mut solution = start();
    solution.open_route();
    solution.insert_job(1, 0, 0);
    assert_eq!(ids(&solution.required), vec![1, 3, 4]);
    assert_eq!(ids(&solution.routes[0].jobs), vec![2]);
    solution.insert_job(2, 0, 0);
    solution.insert_job(0, 0, 1);
    assert_eq!(ids(&solution.required), vec![3]);
    assert_eq!(ids(&solution.routes[0].jobs), vec![4, 1, 2]);
    assert_eq!(all_ids(&solution), vec![1, 2, 3, 4]);
}

#[test]
fn removing_a_job_lets_it_wait_again() {
    let mut solution = start();
    solution.open_route();
    solution.insert_job(0, 0, 0);
    solution.insert_job(0, 0, 1);
    solution.remove_job(0, 0);
    assert_eq!(ids(&solution.required), vec![3, 4, 1]);
    assert_eq!(ids(&solution.routes[0].jobs), vec![2]);
    assert_eq!(all_ids(&solution), vec![1, 2, 3, 4]);
}

#[test]
fn a_route_without_jobs_is_given_up() {
    let mut solution = start();
    solution.open_route();
    solution.open_route();
    solution.insert_job(0, 0, 0);
    solution.insert_job(0, 1, 0);
    solution.remove_job(0, 0);
    assert_eq!(solution.routes.len(), 1);
    assert_eq!(solution.routes[0].actor, actor(20));
    assert_eq!(solution.registry.available, vec![actor(10)]);
    assert_eq!(all_ids(&solution), vec![1, 2, 3, 4]);
    assert_eq!(all_actors(&solution), vec![10, 20]);
}

#[test]
fn removing_a_route_frees_its_jobs_and_its_actor() {
    let mut solution = start();
    solution.open_route();
    solution.open_route();
    solution.insert_job(0, 0, 0);
    solution.insert_job(0, 0, 1);
    solution.insert_job(0, 1, 0);
    solution.remove_route(0);
    assert_eq!(ids(&solution.required), vec![4, 1, 2]);
    assert_eq!(solution.routes.len(), 1);
    assert_eq!(ids(&solution.routes[0].jobs), vec![3]);
    assert_eq!(solution.registry.available, vec![actor(10)]);
    assert_eq!(all_ids(&solution), vec![1, 2, 3, 4]);
    assert_eq!(all_actors(&solution), vec![10, 20]);
}

#[test]
fn every_job_is_in_exactly_one_place_after_many_changes() {
    let mut solution = start();
    solution.ignored.push(job(5));
    solution.locked.push(job(6));
    for step in 0..200usize {
        match step % 5 {
            0 => {
                solution.open_route();
            }
            1 | 2 => {
                if !solution.required.is_empty() && !solution.routes.is_empty() {
                    let route = step % solution.routes.len();
                    let position = step % (solution.routes[route].jobs.len() + 1);
                    solution.insert_job(step % solution.required.len(), route, position);
                }
            }
            3 => {
                if !solution.routes.is_empty() {
                    let route = step % solution.routes.len();
                    if !solution.routes[route].jobs.is_empty() {
                        let position = step % solution.routes[route].jobs.len();
                        solution.remove_job(route, position);
                    }
                }
            }
            _ => {
                if step % 7 == 0 && !solution.routes.is_empty() {
                    solution.remove_route(step % solution.routes.len());
                }
            }
        }
        assert_eq!(all_ids(&solution), vec![1, 2, 3, 4, 5, 6]);
        assert_eq!(all_actors(&solution), vec![10, 20]);
        assert_eq!(ids(&solution.ignored), vec![5]);
        assert_eq!(ids(&solution.locked), vec![6]);
    }
}

#[test]
fn unassigned_jobs_hold_codes_by_identifiers() {
    let mut unassigned = UnassignedJobs::new();
    assert_eq!(unassigned.get(1), None);
    unassigned.insert(1, 3);
    unassigned.insert(2, 4);
    unassigned.insert(1, 5);
    assert_eq!(unassigned.get(1), Some(5));
    assert_eq!(unassigned.get(2), Some(4));
    assert_eq!(unassigned.get(3), None);
}

#[test]
fn the_jobs_that_still_wait_are_unassigned_in_the_solution() {
    let mut context = start();
    context.open_route();
    context.insert_job(1, 0, 0);
    context.insert_job(2, 0, 1);
    let mut extras = Extras::new();
    extras.insert("capacity_type".to_string(), "single".to_string());
    let solution = context.into_solution(7, extras);
    assert_eq!(solution.unassigned.get(1), Some(7));
    assert_eq!(solution.unassigned.get(3), Some(7));
    assert_eq!(solution.unassigned.get(2), None);
    assert_eq!(solution.unassigned.get(4), None);
    assert_eq!(ids(&solution.routes[0].jobs), vec![2, 4]);
    assert_eq!(solution.registry.available, vec![actor(20)]);
    assert_eq!(solution.extras.get(&"capacity_type".to_string()), Some(&"single".to_string()));
}

#[test]
fn a_job_that_fits_nowhere_stays_unassigned() {
    let mut context = SolutionContext::new(vec![job(1)], vec![actor(10)]).unwrap();
    let route = context.open_route().unwrap();
    let candidates = Candidates {
        jobs: vec![1],
        routes: 1,
        outcomes: vec![vec![vec![PositionOutcome::Violation { code: 1, stopped: true }]]],
    };
    let evaluator = PositionInsertionEvaluator::new(InsertionPosition::Any);
    match evaluator.evaluate_folded(&candidates, true, &BestResultSelector::new()) {
        InsertionResult::Success(success) => context.insert_job(0, route, success.position),
        InsertionResult::Failure(failure) => {
            assert_eq!(failure.constraint, 1);
            assert!(failure.stopped);
        }
    }
    assert_eq!(ids(&context.required), vec![1]);
    let solution = context.into_solution(1, Extras::new());
    assert_eq!(solution.unassigned.get(1), Some(1));
    assert!(solution.routes[0].jobs.is_empty());
}
