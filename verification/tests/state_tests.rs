use vrp_core::domain::{Actor, Dimensions, Job, Lock, LockDetail, LockOrder, LockPosition};
use vrp_core::extras::Extras;
use vrp_core::service::{
    restrict_config, AlternativesConfig, EvolutionSettings, InitialConfig, SolverConfig,
    TerminationSettings, MAX_ITERATIONS,
};
use vrp_core::state::RouteState;

#[test]
fn a_new_state_holds_nothing() {
    let state = RouteState::new();
    assert_eq!(state.get_route_state(0), None);
    assert_eq!(state.get_route_state(-7), None);
}

#[test]
fn a_state_holds_what_was_put_under_a_key() {
    let mut state = RouteState::new();
    state.put_route_state(3, Some("a".to_string()));
    state.put_route_state(4, None);
    assert_eq!(state.get_route_state(3), Some(&Some("a".to_string())));
    assert_eq!(state.get_route_state(4), Some(&None));
    assert_eq!(state.get_route_state(5), None);
}

#[test]
fn putting_again_replaces_the_value_of_that_key_only() {
    let mut state = RouteState::new();
    state.put_route_state(3, Some("a".to_string()));
    state.put_route_state(4, Some("b".to_string()));
    state.put_route_state(3, Some("c".to_string()));
    assert_eq!(state.get_route_state(3), Some(&Some("c".to_string())));
    assert_eq!(state.get_route_state(4), Some(&Some("b".to_string())));
    state.put_route_state(3, None);
    assert_eq!(state.get_route_state(3), Some(&None));
}

#[test]
fn extras_hold_texts_by_their_names() {
    let mut extras = Extras::new();
    assert_eq!(extras.get(&"a".to_string()), None);
    extras.insert("a".to_string(), "1".to_string());
    extras.insert("b".to_string(), "2".to_string());
    extras.insert("a".to_string(), "3".to_string());
    assert_eq!(extras.get(&"a".to_string()), Some(&"3".to_string()));
    assert_eq!(extras.get(&"b".to_string()), Some(&"2".to_string()));
    assert_eq!(extras.get(&"".to_string()), None);
}

fn job(id: u64) -> Job {
    Job { id, dimens: Dimensions { compatibility: None, skills: None } }
}

#[test]
fn a_lock_detail_keeps_what_it_was_given() {
    let detail = LockDetail::new(LockOrder::Sequence, LockPosition::Departure, vec![job(1), job(2)]);
    assert_eq!(detail.order, LockOrder::Sequence);
    assert_eq!(detail.position, LockPosition::Departure);
    assert_eq!(detail.jobs.iter().map(|j| j.id).collect::<Vec<u64>>(), vec![1, 2]);
}

#[test]
fn a_strict_lock_admits_no_job_in_between() {
    let admits = |order| LockDetail::new(order, LockPosition::Any, vec![]).admits_insertion_between();
    assert!(admits(LockOrder::Any));
    assert!(admits(LockOrder::Sequence));
    assert!(!admits(LockOrder::Strict));
}

#[test]
fn the_position_of_a_lock_closes_its_ends() {
    let detail = |position| LockDetail::new(LockOrder::Any, position, vec![]);
    assert!(detail(LockPosition::Any).admits_insertion_before());
    assert!(detail(LockPosition::Any).admits_insertion_after());
    assert!(!detail(LockPosition::Departure).admits_insertion_before());
    assert!(detail(LockPosition::Departure).admits_insertion_after());
    assert!(detail(LockPosition::Arrival).admits_insertion_before());
    assert!(!detail(LockPosition::Arrival).admits_insertion_after());
    assert!(!detail(LockPosition::Fixed).admits_insertion_before());
    assert!(!detail(LockPosition::Fixed).admits_insertion_after());
}

#[test]
fn a_lock_asks_its_condition() {
    let detail = LockDetail::new(LockOrder::Any, LockPosition::Any, vec![job(1)]);
    let lock = Lock::new(|actor: &Actor| actor.vehicle == 7, vec![detail]);
    assert_eq!(lock.details.len(), 1);
    assert!(lock.is_applicable(&Actor { vehicle: 7, driver: 0, shift: 0 }));
    assert!(!lock.is_applicable(&Actor { vehicle: 8, driver: 0, shift: 0 }));
}

#[test]
fn the_service_builds_one_alternative_and_sets_one_generation() {
    let mut config = SolverConfig {
        evolution: Some(EvolutionSettings {
            initial: Some(InitialConfig { alternatives: AlternativesConfig { max_size: 8 } }),
        }),
        termination: Some(TerminationSettings { max_time: Some(30), max_generations: Some(3000) }),
    };
    restrict_config(&mut config);
    assert_eq!(config.evolution.unwrap().initial.unwrap().alternatives.max_size, 1);
    let termination = config.termination.unwrap();
    assert_eq!(termination.max_generations, Some(1));
    assert_eq!(termination.max_time, Some(30));
    assert_eq!(MAX_ITERATIONS, 100);
}

#[test]
fn the_service_adds_nothing_to_a_configuration() {
    let mut config = SolverConfig { evolution: None, termination: None };
    restrict_config(&mut config);
    assert!(config.evolution.is_none());
    assert!(config.termination.is_none());
    let mut config = SolverConfig {
        evolution: Some(EvolutionSettings { initial: None }),
        termination: Some(TerminationSettings { max_time: None, max_generations: None }),
    };
    restrict_config(&mut config);
    assert!(config.evolution.unwrap().initial.is_none());
    let termination = config.termination.unwrap();
    assert_eq!(termination.max_generations, Some(1));
    assert_eq!(termination.max_time, None);
}

#[test]
fn dimensions_tell_which_skills_a_job_asks_for() {
    let mut dimens = Dimensions::new();
    assert!(dimens.compatibility.is_none());
    assert!(!dimens.has_skill(&"a".to_string()));
    dimens.skills = Some(vec!["a".to_string(), "b".to_string()]);
    assert!(dimens.has_skill(&"a".to_string()));
    assert!(dimens.has_skill(&"b".to_string()));
    assert!(!dimens.has_skill(&"c".to_string()));
    assert!(!dimens.has_skill(&"".to_string()));
}
