//! What a solving service does to the configuration that a caller sends.

use vstd::prelude::*;

verus! {

/// The number of generations that the service runs.
pub const MAX_ITERATIONS: usize = 100;

/// How many alternative initial solutions are built.
pub struct AlternativesConfig {
    /// The greatest number of alternatives.
    pub max_size: usize,
}

/// How initial solutions are built.
pub struct InitialConfig {
    /// The alternatives.
    pub alternatives: AlternativesConfig,
}

/// How the evolution is set up.
pub struct EvolutionSettings {
    /// The initial solutions.
    pub initial: Option<InitialConfig>,
}

/// When the search ends.
pub struct TerminationSettings {
    /// The greatest running time in seconds.
    pub max_time: Option<usize>,
    /// The greatest number of generations.
    pub max_generations: Option<usize>,
}

/// The configuration of a solver.
pub struct SolverConfig {
    /// The evolution.
    pub evolution: Option<EvolutionSettings>,
    /// The termination.
    pub termination: Option<TerminationSettings>,
}

/// The evolution settings as the service uses them: where initial
/// solutions are configured, one alternative is built.
pub open spec fn restricted_evolution(evolution: Option<EvolutionSettings>) -> Option<
    EvolutionSettings,
> {
    match evolution {
        Some(EvolutionSettings { initial: Some(_) }) => Some(
            EvolutionSettings {
                initial: Some(InitialConfig { alternatives: AlternativesConfig { max_size: 1 } }),
            },
        ),
        other => other,
    }
}

/// The termination settings as the service uses them: where a
/// termination is configured, it is set to one generation.
pub open spec fn restricted_termination(termination: Option<TerminationSettings>) -> Option<
    TerminationSettings,
> {
    match termination {
        Some(settings) => Some(
            TerminationSettings { max_time: settings.max_time, max_generations: Some(1usize) },
        ),
        None => None,
    }
}

/// Restricts the configuration that a caller sent to what the service
/// makes of it, whatever the caller asked for.
pub fn restrict_config(config: &mut SolverConfig)
    ensures
        final(config).evolution == restricted_evolution(old(config).evolution),
        final(config).termination == restricted_termination(old(config).termination),
{
    let evolution = config.evolution.take();
    config.evolution = match evolution {
        Some(settings) => match settings.initial {
            Some(_) => Some(
                EvolutionSettings {
                    initial: Some(InitialConfig { alternatives: AlternativesConfig { max_size: 1 } }),
                },
            ),
            None => Some(EvolutionSettings { initial: None }),
        },
        None => None,
    };
    let termination = config.termination.take();
    config.termination = match termination {
        Some(settings) => Some(
            TerminationSettings { max_time: settings.max_time, max_generations: Some(1) },
        ),
        None => None,
    };
}

} // verus!
