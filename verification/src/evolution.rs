//! The start of an evolution: the checks on its configuration and the
//! seeding of the first population.

use crate::domain::Problem;
use crate::population::{
    fitnesses, is_added, lemma_insert_position, DominancePopulation, Individual,
};
use crate::random::{drawable, weighted};
use crate::state::RefinementState;
use rand::rngs::StdRng;
use vstd::prelude::*;

verus! {

/// What the search reports while it runs.
#[derive(Clone, Copy, Debug, PartialEq, Eq, Structural)]
pub enum TelemetryEvent {
    /// The search has started.
    Start,
    /// The size of the problem.
    ProblemSize { jobs: usize, actors: usize },
    /// The initial solution `index` of `total` has been offered to the population.
    Initial { index: usize, total: usize },
    /// The initial solution `index` that the caller provided was not offered.
    SkippedProvided { index: usize },
    /// The initial solution `index` that a method built was not offered.
    SkippedBuilt { index: usize },
    /// A generation has ended.
    Generation { generation: usize, is_new_best: bool },
    /// No initial solution made it into the population.
    EmptyPopulation,
}

/// Collects what the search reports, in the order of the reports.
pub struct Telemetry {
    events: Vec<TelemetryEvent>,
}

impl Telemetry {
    /// The reports so far.
    pub closed spec fn view(&self) -> Seq<TelemetryEvent> {
        self.events@
    }

    /// Creates a sink without reports.
    pub fn new() -> (r: Self)
        ensures
            r@ == Seq::<TelemetryEvent>::empty(),
    {
        Telemetry { events: Vec::new() }
    }

    /// Reports the start of the search.
    pub fn start(&mut self)
        ensures
            final(self)@ == old(self)@.push(TelemetryEvent::Start),
    {
        self.events.push(TelemetryEvent::Start);
    }

    /// Adds a report.
    pub fn log(&mut self, event: TelemetryEvent)
        ensures
            final(self)@ == old(self)@.push(event),
    {
        self.events.push(event);
    }

    /// Reports that an initial solution has been offered.
    pub fn on_initial(&mut self, index: usize, total: usize)
        ensures
            final(self)@ == old(self)@.push(TelemetryEvent::Initial { index, total }),
    {
        self.events.push(TelemetryEvent::Initial { index, total });
    }

    /// Reports the end of a generation.
    pub fn on_generation(&mut self, generation: usize, is_new_best: bool)
        ensures
            final(self)@ == old(self)@.push(TelemetryEvent::Generation { generation, is_new_best }),
    {
        self.events.push(TelemetryEvent::Generation { generation, is_new_best });
    }

    /// The number of reports.
    pub fn len(&self) -> (r: usize)
        ensures
            r == self@.len(),
    {
        self.events.len()
    }

    /// The report at a place, if there is one.
    pub fn get(&self, index: usize) -> (r: Option<TelemetryEvent>)
        ensures
            index < self@.len() ==> r == Some(self@[index as int]),
            index >= self@.len() ==> r is None,
    {
        if index < self.events.len() {
            Some(self.events[index])
        } else {
            None
        }
    }

    /// Hands the reports out as metrics.
    pub fn get_metrics(self) -> (r: Metrics)
        ensures
            r.events@ == self@,
    {
        Metrics { events: self.events }
    }
}

/// What a search has reported.
pub struct Metrics {
    /// The reports, in their order.
    pub events: Vec<TelemetryEvent>,
}

/// A signal from outside that the search should end.
pub trait Quota {
    /// Whether `reached` may be the quota's answer. A quota may say of
    /// itself which answer it gives.
    open spec fn may_answer(&self, reached: bool) -> bool {
        true
    }

    /// Whether the signal has been given.
    fn is_reached(&self) -> (r: bool)
        ensures
            self.may_answer(r),
    ;
}

/// The state of a search.
pub struct RefinementContext<S, Q> {
    /// The population.
    pub population: DominancePopulation<S>,
    /// The quota, if there is one.
    pub quota: Option<Q>,
    /// The number of generations that have ended.
    pub generation: usize,
    /// What the termination criteria keep between generations.
    pub state: RefinementState,
}

/// Whether two states are those of one moment of a search: they have the
/// population, the quota and the generation in common, and differ at
/// most in what the termination criteria keep.
pub open spec fn same_search<S, Q>(
    first: RefinementContext<S, Q>,
    second: RefinementContext<S, Q>,
) -> bool {
    &&& first.population == second.population
    &&& first.quota == second.quota
    &&& first.generation == second.generation
}

/// Decides when a search ends.
pub trait Termination<S, Q> {
    /// Whether `terminated` may be the answer in the given state. A
    /// termination may say of itself which answer it gives.
    open spec fn may_terminate(
        &self,
        refinement_ctx: &RefinementContext<S, Q>,
        terminated: bool,
    ) -> bool {
        true
    }

    /// Whether the search should end in the given state. Of the state
    /// only what the termination criteria keep may be changed.
    fn is_termination(&self, refinement_ctx: &mut RefinementContext<S, Q>) -> (r: bool)
        ensures
            self.may_terminate(&*old(refinement_ctx), r),
            same_search(*final(refinement_ctx), *old(refinement_ctx)),
    ;
}

/// Builds an initial solution.
pub trait InitialMethod<S, Q> {
    /// Whether `individual` may be what the method builds in the given
    /// state from the given empty solution. A method may say of itself
    /// what it builds, and how many entries the fitness of what it builds has.
    open spec fn may_build(
        &self,
        refinement_ctx: &RefinementContext<S, Q>,
        insertion_ctx: &S,
        individual: Individual<S>,
    ) -> bool {
        true
    }

    /// Builds a solution, with its fitness, from a solution in which no
    /// job is assigned yet. The method works on a copy of its own.
    fn run(&self, refinement_ctx: &RefinementContext<S, Q>, insertion_ctx: &S) -> (r: Individual<S>)
        ensures
            self.may_build(refinement_ctx, insertion_ctx, r),
    ;
}

/// How the first population is made.
pub struct InitialConfig<M, S> {
    /// The number of solutions that the first population should hold.
    pub size: usize,
    /// The methods that build solutions, each with its weight.
    pub methods: Vec<(M, usize)>,
    /// Solutions that the caller provides.
    pub individuals: Vec<Individual<S>>,
}

/// The population's parameters.
pub struct PopulationConfig<M, S> {
    /// How the first population is made.
    pub initial: InitialConfig<M, S>,
    /// The greatest number of individuals that the population keeps.
    pub max_size: usize,
}

/// Everything that an evolution needs.
pub struct EvolutionConfig<M, T, Q, S, E> {
    /// The problem.
    pub problem: Problem,
    /// The solution of the problem in which no job is assigned yet: what
    /// the initial methods start from.
    pub empty: S,
    /// The population's parameters.
    pub population: PopulationConfig<M, S>,
    /// Decides when the search ends.
    pub termination: T,
    /// Takes the reports.
    pub telemetry: Telemetry,
    /// The quota, if there is one.
    pub quota: Option<Q>,
    /// The random source.
    pub random: StdRng,
    /// The strategy that runs the generations.
    pub strategy: E,
}

/// What an evolution gives: the population and, optionally, metrics.
pub struct EvolutionOutcome<S> {
    /// The final population.
    pub population: DominancePopulation<S>,
    /// The metrics, if they were collected.
    pub metrics: Option<Metrics>,
}

/// An evolution algorithm strategy.
pub trait EvolutionStrategy<M, T, Q, S>: Sized {
    /// Whether `answer` may be what the strategy gives for the state and
    /// the configuration. A strategy may say of itself what it gives.
    open spec fn may_give(
        &self,
        refinement_ctx: RefinementContext<S, Q>,
        config: EvolutionConfig<M, T, Q, S, Self>,
        answer: Result<EvolutionOutcome<S>, String>,
    ) -> bool {
        true
    }

    /// Runs the generations from the given state and gives the population
    /// filled with solutions, or says why it could not. The state has a
    /// population in order, and the configuration has been checked.
    fn run(
        &self,
        refinement_ctx: RefinementContext<S, Q>,
        config: EvolutionConfig<M, T, Q, S, Self>,
    ) -> (r: Result<EvolutionOutcome<S>, String>)
        requires
            refinement_ctx.population.wf(),
            valid_population(config.population),
        ensures
            self.may_give(refinement_ctx, config, r),
    ;
}

/// The message for an initial size of zero.
pub open spec fn initial_size_too_small() -> Seq<char> {
    "initial size should be greater than 0"@
}

/// The message for an initial size above the population's size.
pub open spec fn initial_size_too_large() -> Seq<char> {
    "initial size should be less or equal population size"@
}

/// The message for a configuration without initial methods.
pub open spec fn no_initial_method() -> Seq<char> {
    "at least one initial method has to be specified"@
}

/// The message for initial methods among which no weighted draw can be made.
pub open spec fn no_drawable_method() -> Seq<char> {
    "the weights of the initial methods admit no choice"@
}

/// Whether a solution is offered to the population: always while the
/// population is empty, and otherwise as long as the quota is not reached.
pub open spec fn should_add(is_quota_reached: bool, population_size: nat) -> bool {
    population_size == 0 || !is_quota_reached
}

/// Whether `reached` may be what asking the quota of a state gives: an
/// answer of the quota, and without a quota that it is not reached.
pub open spec fn quota_may_answer<S, Q: Quota>(
    refinement_ctx: &RefinementContext<S, Q>,
    reached: bool,
) -> bool {
    option_may_answer(refinement_ctx.quota, reached)
}

/// Whether `reached` may be what asking a quota gives, where there is one:
/// an answer of the quota, and without a quota that it is not reached.
pub open spec fn option_may_answer<Q: Quota>(quota: Option<Q>, reached: bool) -> bool {
    match quota {
        Some(quota) => quota.may_answer(reached),
        None => !reached,
    }
}

/// Whether the quota of a state has been reached: the answer of the
/// quota; without a quota it never is.
pub fn is_quota_reached<S, Q: Quota>(refinement_ctx: &RefinementContext<S, Q>) -> (r: bool)
    ensures
        quota_may_answer(refinement_ctx, r),
{
    match &refinement_ctx.quota {
        Some(quota) => quota.is_reached(),
        None => false,
    }
}

/// Decides from the quota's answer and the population's size whether a solution is offered.
pub fn decide_add(is_quota_reached: bool, population_size: usize) -> (r: bool)
    ensures
        r == should_add(is_quota_reached, population_size as nat),
{
    population_size == 0 || !is_quota_reached
}

/// Asks the quota and tells whether a solution should be offered to the
/// population: it is while the population is empty, and otherwise as
/// long as the quota answers that it is not reached.
pub fn should_add_solution<S, Q: Quota>(refinement_ctx: &RefinementContext<S, Q>) -> (r: bool)
    ensures
        exists|reached: bool| #[trigger]
            quota_may_answer(refinement_ctx, reached) && r == should_add(
                reached,
                refinement_ctx.population@.len(),
            ),
{
    let reached = is_quota_reached(refinement_ctx);
    let r = decide_add(reached, refinement_ctx.population.size());
    proof {
        assert(quota_may_answer(refinement_ctx, reached));
    }
    r
}

/// Decides from the two answers whether the search ends.
pub fn decide_stop(is_terminated: bool, is_quota_reached: bool) -> (r: bool)
    ensures
        r == (is_terminated || is_quota_reached),
{
    is_terminated || is_quota_reached
}

/// Asks the termination and then the quota, both in any case, and tells
/// whether the search should end: it should where the termination says
/// so or the quota is reached.
pub fn should_stop<S, Q: Quota, T: Termination<S, Q>>(
    refinement_ctx: &mut RefinementContext<S, Q>,
    termination: &T,
) -> (r: bool)
    ensures
        same_search(*final(refinement_ctx), *old(refinement_ctx)),
        exists|terminated: bool, reached: bool|
            #[trigger] termination.may_terminate(&*old(refinement_ctx), terminated)
                && #[trigger] option_may_answer(old(refinement_ctx).quota, reached) && r == (
            terminated || reached),
{
    let is_terminated = termination.is_termination(refinement_ctx);
    let reached = is_quota_reached(refinement_ctx);
    let r = decide_stop(is_terminated, reached);
    proof {
        assert(termination.may_terminate(&*old(refinement_ctx), is_terminated));
        assert(option_may_answer(old(refinement_ctx).quota, reached));
    }
    r
}

/// The weights of the methods, in the methods' order.
pub open spec fn weights_of<M>(methods: Seq<(M, usize)>) -> Seq<usize> {
    Seq::new(methods.len(), |i: int| methods[i].1)
}

/// Whether the population's parameters admit an evolution.
pub open spec fn valid_population<M, S>(population: PopulationConfig<M, S>) -> bool {
    &&& 1 <= population.initial.size <= population.max_size
    &&& population.initial.methods@.len() > 0
}

/// Whether `longer` begins with `shorter`.
pub open spec fn begins_with(longer: Seq<TelemetryEvent>, shorter: Seq<TelemetryEvent>) -> bool {
    shorter.len() <= longer.len() && longer.subrange(0, shorter.len() as int) == shorter
}

/// What begins with a sequence still does after a report is added.
pub proof fn lemma_begins_with_push(
    longer: Seq<TelemetryEvent>,
    shorter: Seq<TelemetryEvent>,
    event: TelemetryEvent,
)
    requires
        begins_with(longer, shorter),
    ensures
        begins_with(longer.push(event), shorter),
{
    assert(longer.push(event).subrange(0, shorter.len() as int) =~= longer.subrange(
        0,
        shorter.len() as int,
    ));
}

fn collect_weights<M>(methods: &Vec<(M, usize)>) -> (r: Vec<usize>)
    ensures
        r@ == weights_of(methods@),
{
    let mut weights: Vec<usize> = Vec::new();
    let mut i: usize = 0;
    while i < methods.len()
        invariant
            i <= methods@.len(),
            weights@.len() == i,
            forall|k: int| 0 <= k < i ==> weights@[k] == methods@[k].1,
        decreases methods@.len() - i,
    {
        weights.push(methods[i].1);
        i = i + 1;
    }
    proof {
        assert(weights@ =~= weights_of(methods@));
    }
    weights
}

/// What offering an initial solution makes of a population and of the
/// reports: where the solution is to be added, it is offered to the
/// population and `Initial` is reported; else the population stays as it
/// is and `skipped` is reported.
pub open spec fn may_offer<S>(
    before: Seq<Individual<S>>,
    reports: Seq<TelemetryEvent>,
    limit: nat,
    terms: nat,
    total: usize,
    individual: Individual<S>,
    reached: bool,
    index: usize,
    skipped: TelemetryEvent,
    after: Seq<Individual<S>>,
    more: Seq<TelemetryEvent>,
) -> bool {
    if should_add(reached, before.len()) {
        &&& more == reports.push(TelemetryEvent::Initial { index, total })
        &&& exists|accepted: bool| #[trigger]
            is_added(before, limit, terms, individual, after, accepted)
    } else {
        &&& more == reports.push(skipped)
        &&& after == before
    }
}

/// Offers an initial solution to the population, unless the quota is
/// reached and the population holds a solution already, and reports which
/// of the two happened: `Initial` for an offer, `skipped` otherwise. Tells
/// whether the solution stayed in the population.
pub fn offer_initial<S, Q>(
    refinement_ctx: &mut RefinementContext<S, Q>,
    telemetry: &mut Telemetry,
    individual: Individual<S>,
    index: usize,
    total: usize,
    is_quota_reached: bool,
    skipped: TelemetryEvent,
) -> (accepted: bool)
    requires
        old(refinement_ctx).population.wf(),
    ensures
        final(refinement_ctx).population.wf(),
        final(refinement_ctx).population.limit() == old(refinement_ctx).population.limit(),
        final(refinement_ctx).population.terms() == old(refinement_ctx).population.terms(),
        final(refinement_ctx).quota == old(refinement_ctx).quota,
        final(refinement_ctx).generation == old(refinement_ctx).generation,
        final(refinement_ctx).population@.len() <= old(refinement_ctx).population@.len() + 1,
        should_add(is_quota_reached, old(refinement_ctx).population@.len()) ==> is_added(
            old(refinement_ctx).population@,
            old(refinement_ctx).population.limit(),
            old(refinement_ctx).population.terms(),
            individual,
            final(refinement_ctx).population@,
            accepted,
        ) && final(telemetry)@ == old(telemetry)@.push(TelemetryEvent::Initial { index, total }),
        !should_add(is_quota_reached, old(refinement_ctx).population@.len()) ==> !accepted
            && final(refinement_ctx).population@ == old(refinement_ctx).population@ && final(telemetry)@ == old(telemetry)@.push(skipped),
        may_offer(
            old(refinement_ctx).population@,
            old(telemetry)@,
            old(refinement_ctx).population.limit(),
            old(refinement_ctx).population.terms(),
            total,
            individual,
            is_quota_reached,
            index,
            skipped,
            final(refinement_ctx).population@,
            final(telemetry)@,
        ),
{
    if decide_add(is_quota_reached, refinement_ctx.population.size()) {
        telemetry.on_initial(index, total);
        let accepted = refinement_ctx.population.add(individual);
        proof {
            assert(is_added(
                old(refinement_ctx).population@,
                old(refinement_ctx).population.limit(),
                old(refinement_ctx).population.terms(),
                individual,
                refinement_ctx.population@,
                accepted,
            ));
        }
        accepted
    } else {
        telemetry.log(skipped);
        false
    }
}

/// Whether `after` is a configuration as the seeding of the first
/// population leaves `before`: problem, strategy, sizes and methods are
/// the same, and so is the termination; the provided individuals and the quota have been taken
/// out, and the reports go on with the start and the size of the problem.
pub open spec fn is_prepared<M, T, Q, S, E>(
    before: EvolutionConfig<M, T, Q, S, E>,
    after: EvolutionConfig<M, T, Q, S, E>,
) -> bool {
    &&& after.problem == before.problem
    &&& after.empty == before.empty
    &&& after.strategy == before.strategy
    &&& after.termination == before.termination
    &&& after.population.max_size == before.population.max_size
    &&& after.population.initial.size == before.population.initial.size
    &&& after.population.initial.methods == before.population.initial.methods
    &&& after.population.initial.individuals@.len() == 0
    &&& after.quota is None
    &&& begins_with(
        after.telemetry@,
        before.telemetry@.push(TelemetryEvent::Start).push(
            TelemetryEvent::ProblemSize {
                jobs: before.problem.jobs.len(),
                actors: before.problem.fleet.actors.len(),
            },
        ),
    )
}

/// Whether the state is one that the seeding of the first population
/// gives for the configuration `before`, leaving `after`: its population
/// is in order, sized as configured and not above the initial size, it
/// has the quota, no generation has ended, and the last report tells
/// whether the population holds a solution.
pub open spec fn is_seeded<M, T, Q, S, E>(
    before: EvolutionConfig<M, T, Q, S, E>,
    after: EvolutionConfig<M, T, Q, S, E>,
    refinement_ctx: RefinementContext<S, Q>,
) -> bool {
    &&& refinement_ctx.population.wf()
    &&& refinement_ctx.population.limit() == before.population.max_size
    &&& refinement_ctx.population.terms() == before.problem.objectives
    &&& refinement_ctx.population@.len() <= before.population.initial.size
    &&& refinement_ctx.quota == before.quota
    &&& refinement_ctx.generation == 0
    &&& after.telemetry@.last() == (if refinement_ctx.population@.len() > 0 {
        TelemetryEvent::Generation { generation: 0, is_new_best: true }
    } else {
        TelemetryEvent::EmptyPopulation
    })
}

/// An initial solution as it was offered while the first population was seeded.
pub struct InitialOffer<S, Q> {
    /// The solution.
    pub individual: Individual<S>,
    /// What the quota answered when the solution was offered.
    pub reached: bool,
    /// The index that the offer was reported with.
    pub index: usize,
    /// Whether an initial method built the solution; else the caller provided it.
    pub is_built: bool,
    /// For a solution that a method built: the state that the
    /// termination and the method were asked with.
    pub asked: RefinementContext<S, Q>,
}

/// The report for an offer that was not made.
pub open spec fn skipped_report<S, Q>(offer: InitialOffer<S, Q>) -> TelemetryEvent {
    if offer.is_built {
        TelemetryEvent::SkippedBuilt { index: offer.index }
    } else {
        TelemetryEvent::SkippedProvided { index: offer.index }
    }
}

/// The last report of the seeding: a generation with a new best where
/// the population holds a solution, else that the population is empty.
pub open spec fn last_report(population_size: nat) -> TelemetryEvent {
    if population_size > 0 {
        TelemetryEvent::Generation { generation: 0, is_new_best: true }
    } else {
        TelemetryEvent::EmptyPopulation
    }
}

/// Whether population and reports may come of the first `n` offers, made
/// one after the other to an empty population and with the reports
/// `head` before them. A built solution was built in the state whose
/// population is the one that it is offered to.
pub open spec fn may_seed<S, Q>(
    limit: nat,
    terms: nat,
    total: usize,
    head: Seq<TelemetryEvent>,
    offers: Seq<InitialOffer<S, Q>>,
    n: nat,
    population: Seq<Individual<S>>,
    reports: Seq<TelemetryEvent>,
) -> bool
    decreases n,
{
    if n == 0 || n > offers.len() {
        population == Seq::<Individual<S>>::empty() && reports == head
    } else {
        exists|before: Seq<Individual<S>>, told: Seq<TelemetryEvent>|
            may_seed(limit, terms, total, head, offers, (n - 1) as nat, before, told)
                && #[trigger] may_offer(
                before,
                told,
                limit,
                terms,
                total,
                offers[n - 1].individual,
                offers[n - 1].reached,
                offers[n - 1].index,
                skipped_report(offers[n - 1]),
                population,
                reports,
            ) && (offers[n - 1].is_built ==> offers[n - 1].asked.population@ == before)
    }
}

/// Whether the offer is that of the provided solution with the given index.
pub open spec fn is_provided_offer<S, Q>(
    offer: InitialOffer<S, Q>,
    individual: Individual<S>,
    index: int,
) -> bool {
    offer.individual == individual && offer.index == index && !offer.is_built
}

/// Whether the offer is that of a solution that an initial method built,
/// reported with the given index: the state that was asked is one of this
/// seeding, the termination answered at that moment that the search goes
/// on, and one of the methods, of a weight that is not zero, built the
/// solution in it from the configured empty solution.
pub open spec fn is_built_offer<M: InitialMethod<S, Q>, T: Termination<S, Q>, Q, S, E>(
    before: EvolutionConfig<M, T, Q, S, E>,
    offer: InitialOffer<S, Q>,
    index: int,
) -> bool {
    &&& offer.is_built
    &&& offer.index == index
    &&& offer.asked.quota == before.quota
    &&& offer.asked.generation == 0
    &&& offer.asked.population.wf()
    &&& offer.asked.population.limit() == before.population.max_size
    &&& offer.asked.population.terms() == before.problem.objectives
    &&& exists|state: RefinementContext<S, Q>|
        same_search(state, offer.asked) && #[trigger] before.termination.may_terminate(
            &state,
            false,
        )
    &&& exists|k: int|
        0 <= k < before.population.initial.methods@.len()
            && before.population.initial.methods@[k].1 > 0
            && (#[trigger] before.population.initial.methods@[k]).0.may_build(
            &offer.asked,
            &before.empty,
            offer.individual,
        )
}

/// The number of provided solutions that are offered: all of them, but
/// not more than the initial size.
pub open spec fn provided_count<M, T, Q, S, E>(before: EvolutionConfig<M, T, Q, S, E>) -> nat {
    if before.population.initial.individuals@.len() <= before.population.initial.size {
        before.population.initial.individuals@.len()
    } else {
        before.population.initial.size as nat
    }
}

/// The reports before the first offer: those that were there, the start,
/// and the size of the problem.
pub open spec fn first_reports<M, T, Q, S, E>(before: EvolutionConfig<M, T, Q, S, E>) -> Seq<
    TelemetryEvent,
> {
    before.telemetry@.push(TelemetryEvent::Start).push(
        TelemetryEvent::ProblemSize {
            jobs: before.problem.jobs.len(),
            actors: before.problem.fleet.actors.len(),
        },
    )
}

/// Whether the state came of the offers, for the configuration `before`
/// and leaving `after`:
/// - the provided solutions were offered first, in their order and under
///   their indices, as many as the initial size admits;
/// - then built solutions were offered, under the indices that follow
///   the size that the population had after the provided ones, until the
///   index reached the initial size or the termination answered, in the
///   state that is returned, that the search ends;
/// - for each offer the quota was asked;
/// - the population is what the offers make of an empty one, and the
///   reports are one for each offer and the last report.
pub open spec fn is_seeding<M: InitialMethod<S, Q>, T: Termination<S, Q>, Q: Quota, S, E>(
    before: EvolutionConfig<M, T, Q, S, E>,
    after: EvolutionConfig<M, T, Q, S, E>,
    refinement_ctx: RefinementContext<S, Q>,
    offers: Seq<InitialOffer<S, Q>>,
) -> bool {
    let total = before.population.initial.size;
    let limit = before.population.max_size as nat;
    let terms = before.problem.objectives as nat;
    let provided = before.population.initial.individuals@;
    let n = provided_count(before);
    let head = first_reports(before);
    &&& offers.len() >= n
    &&& forall|i: int|
        0 <= i < offers.len() ==> option_may_answer(before.quota, (#[trigger] offers[i]).reached)
    &&& forall|i: int| 0 <= i < n ==> is_provided_offer(#[trigger] offers[i], provided[i], i)
    &&& exists|middle: Seq<Individual<S>>, told: Seq<TelemetryEvent>|
        {
            &&& #[trigger] may_seed(limit, terms, total, head, offers, n, middle, told)
            &&& forall|i: int|
                n <= i < offers.len() ==> is_built_offer(
                    before,
                    #[trigger] offers[i],
                    middle.len() + i - n,
                )
            &&& middle.len() + offers.len() - n <= total
            &&& middle.len() + offers.len() - n < total ==> exists|state: RefinementContext<S, Q>|
                same_search(state, refinement_ctx) && #[trigger] before.termination.may_terminate(
                    &state,
                    true,
                )
        }
    &&& exists|reports: Seq<TelemetryEvent>|
        {
            &&& #[trigger] may_seed(
                limit,
                terms,
                total,
                head,
                offers,
                offers.len(),
                refinement_ctx.population@,
                reports,
            )
            &&& after.telemetry@ == reports.push(last_report(refinement_ctx.population@.len()))
        }
}

/// Whether the termination never answers that the search ends.
pub open spec fn never_terminates<T: Termination<S, Q>, S, Q>(termination: T) -> bool {
    forall|refinement_ctx: RefinementContext<S, Q>|
        !#[trigger] termination.may_terminate(&refinement_ctx, true)
}

/// Whether the quota, where there is one, never answers that it is reached.
pub open spec fn never_reached<Q: Quota>(quota: Option<Q>) -> bool {
    forall|reached: bool| #[trigger] option_may_answer(quota, reached) ==> !reached
}

/// Whether whatever one of the methods builds has a fitness of `terms` entries.
pub open spec fn builds_fit<M: InitialMethod<S, Q>, S, Q>(methods: Seq<(M, usize)>, terms: nat) -> bool {
    forall|k: int, refinement_ctx: RefinementContext<S, Q>, empty: S, individual: Individual<S>|
        0 <= k < methods.len() && #[trigger] methods[k].0.may_build(
            &refinement_ctx,
            &empty,
            individual,
        ) ==> individual.fitness@.len() == terms
}

/// What came of the first offers does not depend on later ones.
pub proof fn lemma_may_seed_prefix<S, Q>(
    limit: nat,
    terms: nat,
    total: usize,
    head: Seq<TelemetryEvent>,
    offers: Seq<InitialOffer<S, Q>>,
    more: Seq<InitialOffer<S, Q>>,
    n: nat,
    population: Seq<Individual<S>>,
    reports: Seq<TelemetryEvent>,
)
    requires
        n <= offers.len() <= more.len(),
        forall|i: int| 0 <= i < n ==> offers[i] == more[i],
        may_seed(limit, terms, total, head, offers, n, population, reports),
    ensures
        may_seed(limit, terms, total, head, more, n, population, reports),
    decreases n,
{
    if n > 0 {
        let k = (n - 1) as nat;
        let (before, told) = choose|before: Seq<Individual<S>>, told: Seq<TelemetryEvent>|
            may_seed(limit, terms, total, head, offers, k, before, told) && #[trigger] may_offer(
                before,
                told,
                limit,
                terms,
                total,
                offers[n - 1].individual,
                offers[n - 1].reached,
                offers[n - 1].index,
                skipped_report(offers[n - 1]),
                population,
                reports,
            ) && (offers[n - 1].is_built ==> offers[n - 1].asked.population@ == before);
        lemma_may_seed_prefix(limit, terms, total, head, offers, more, k, before, told);
        assert(more[n - 1] == offers[n - 1]);
        assert(may_offer(
            before,
            told,
            limit,
            terms,
            total,
            more[n - 1].individual,
            more[n - 1].reached,
            more[n - 1].index,
            skipped_report(more[n - 1]),
            population,
            reports,
        ));
    }
}

/// One more offer, one more step of the seeding.
pub proof fn lemma_may_seed_step<S, Q>(
    limit: nat,
    terms: nat,
    total: usize,
    head: Seq<TelemetryEvent>,
    offers: Seq<InitialOffer<S, Q>>,
    offer: InitialOffer<S, Q>,
    before: Seq<Individual<S>>,
    told: Seq<TelemetryEvent>,
    population: Seq<Individual<S>>,
    reports: Seq<TelemetryEvent>,
)
    requires
        may_seed(limit, terms, total, head, offers, offers.len(), before, told),
        may_offer(
            before,
            told,
            limit,
            terms,
            total,
            offer.individual,
            offer.reached,
            offer.index,
            skipped_report(offer),
            population,
            reports,
        ),
        offer.is_built ==> offer.asked.population@ == before,
    ensures
        may_seed(
            limit,
            terms,
            total,
            head,
            offers.push(offer),
            offers.len() + 1,
            population,
            reports,
        ),
{
    let more = offers.push(offer);
    let m = offers.len() + 1;
    lemma_may_seed_prefix(limit, terms, total, head, offers, more, offers.len(), before, told);
    assert((m - 1) as nat == offers.len());
    assert(more[m - 1] == offer);
    assert(may_offer(
        before,
        told,
        limit,
        terms,
        total,
        more[m - 1].individual,
        more[m - 1].reached,
        more[m - 1].index,
        skipped_report(more[m - 1]),
        population,
        reports,
    ));
}

/// An offer makes a population longer by one individual at most, and what
/// it makes of an empty population that has room is the individual alone,
/// where its fitness has the right number of entries.
pub proof fn lemma_offer_lengths<S>(
    before: Seq<Individual<S>>,
    limit: nat,
    terms: nat,
    individual: Individual<S>,
    after: Seq<Individual<S>>,
    accepted: bool,
)
    requires
        is_added(before, limit, terms, individual, after, accepted),
    ensures
        after.len() <= before.len() + 1,
        before.len() == 0 && limit >= 1 && individual.fitness@.len() == terms ==> after
            == seq![individual],
        before.len() == 0 && individual.fitness@.len() != terms ==> after.len() == 0,
{
    lemma_insert_position(fitnesses(before), individual.fitness@);
    if before.len() == 0 && limit >= 1 && individual.fitness@.len() == terms {
        assert(before.insert(0, individual) =~= seq![individual]);
    }
}

/// While the quota answers that it is reached, only an offer to an
/// empty population is made: the population never holds more than one individual.
pub proof fn lemma_reached_quota_admits_one<S, Q>(
    limit: nat,
    terms: nat,
    total: usize,
    head: Seq<TelemetryEvent>,
    offers: Seq<InitialOffer<S, Q>>,
    n: nat,
    population: Seq<Individual<S>>,
    reports: Seq<TelemetryEvent>,
)
    requires
        n <= offers.len(),
        forall|i: int| 0 <= i < n ==> (#[trigger] offers[i]).reached,
        may_seed(limit, terms, total, head, offers, n, population, reports),
    ensures
        population.len() <= 1,
    decreases n,
{
    if n > 0 {
        let k = (n - 1) as nat;
        let (before, told) = choose|before: Seq<Individual<S>>, told: Seq<TelemetryEvent>|
            may_seed(limit, terms, total, head, offers, k, before, told) && #[trigger] may_offer(
                before,
                told,
                limit,
                terms,
                total,
                offers[n - 1].individual,
                offers[n - 1].reached,
                offers[n - 1].index,
                skipped_report(offers[n - 1]),
                population,
                reports,
            ) && (offers[n - 1].is_built ==> offers[n - 1].asked.population@ == before);
        lemma_reached_quota_admits_one(limit, terms, total, head, offers, k, before, told);
        assert(offers[n - 1].reached);
        if before.len() == 0 {
            let accepted = choose|accepted: bool| #[trigger]
                is_added(before, limit, terms, offers[n - 1].individual, population, accepted);
            lemma_offer_lengths(before, limit, terms, offers[n - 1].individual, population, accepted);
        }
    }
}

/// With a quota that always answers that it is reached, the seeded
/// population holds one individual at most.
pub proof fn lemma_reached_quota_seeds_one<
    M: InitialMethod<S, Q>,
    T: Termination<S, Q>,
    Q: Quota,
    S,
    E,
>(
    before: EvolutionConfig<M, T, Q, S, E>,
    after: EvolutionConfig<M, T, Q, S, E>,
    refinement_ctx: RefinementContext<S, Q>,
    offers: Seq<InitialOffer<S, Q>>,
)
    requires
        is_seeding(before, after, refinement_ctx, offers),
        forall|reached: bool| #[trigger] option_may_answer(before.quota, reached) ==> reached,
    ensures
        refinement_ctx.population@.len() <= 1,
{
    let reports = choose|reports: Seq<TelemetryEvent>|
        {
            &&& #[trigger] may_seed(
                before.population.max_size as nat,
                before.problem.objectives as nat,
                before.population.initial.size,
                first_reports(before),
                offers,
                offers.len(),
                refinement_ctx.population@,
                reports,
            )
            &&& after.telemetry@ == reports.push(last_report(refinement_ctx.population@.len()))
        };
    assert forall|i: int| 0 <= i < offers.len() implies (#[trigger] offers[i]).reached by {
        assert(option_may_answer(before.quota, offers[i].reached));
    }
    lemma_reached_quota_admits_one(
        before.population.max_size as nat,
        before.problem.objectives as nat,
        before.population.initial.size,
        first_reports(before),
        offers,
        offers.len(),
        refinement_ctx.population@,
        reports,
    );
}

/// Where the termination always answers that the search ends, no method
/// builds a solution: the offers are those of the
/// provided solutions.
pub proof fn lemma_terminated_builds_nothing<
    M: InitialMethod<S, Q>,
    T: Termination<S, Q>,
    Q: Quota,
    S,
    E,
>(
    before: EvolutionConfig<M, T, Q, S, E>,
    after: EvolutionConfig<M, T, Q, S, E>,
    refinement_ctx: RefinementContext<S, Q>,
    offers: Seq<InitialOffer<S, Q>>,
)
    requires
        is_seeding(before, after, refinement_ctx, offers),
        forall|state: RefinementContext<S, Q>|
            !#[trigger] before.termination.may_terminate(&state, false),
    ensures
        offers.len() == provided_count(before),
        before.population.initial.individuals@.len() == 0 ==> refinement_ctx.population@.len()
            == 0 && after.telemetry@ == first_reports(before).push(
            TelemetryEvent::EmptyPopulation,
        ),
{
    let n = provided_count(before);
    if offers.len() > n {
        let (middle, told) = choose|middle: Seq<Individual<S>>, told: Seq<TelemetryEvent>|
            {
                &&& #[trigger] may_seed(
                    before.population.max_size as nat,
                    before.problem.objectives as nat,
                    before.population.initial.size,
                    first_reports(before),
                    offers,
                    n,
                    middle,
                    told,
                )
                &&& forall|i: int|
                    n <= i < offers.len() ==> is_built_offer(
                        before,
                        #[trigger] offers[i],
                        middle.len() + i - n,
                    )
                &&& middle.len() + offers.len() - n <= before.population.initial.size
                &&& middle.len() + offers.len() - n < before.population.initial.size ==> exists|
                    state: RefinementContext<S, Q>,
                |
                    same_search(state, refinement_ctx)
                        && #[trigger] before.termination.may_terminate(&state, true)
            };
        assert(is_built_offer(before, offers[n as int], middle.len() + n - n));
    }
}

/// One provided solution for an initial size of one is the population,
/// whatever quota and termination answer, where its fitness has the
/// right number of entries; and no method builds a solution.
pub proof fn lemma_single_provided_is_kept<
    M: InitialMethod<S, Q>,
    T: Termination<S, Q>,
    Q: Quota,
    S,
    E,
>(
    before: EvolutionConfig<M, T, Q, S, E>,
    after: EvolutionConfig<M, T, Q, S, E>,
    refinement_ctx: RefinementContext<S, Q>,
    offers: Seq<InitialOffer<S, Q>>,
)
    requires
        valid_population(before.population),
        before.population.initial.size == 1,
        before.population.initial.individuals@.len() == 1,
        before.population.initial.individuals@[0].fitness@.len() == before.problem.objectives,
        is_seeding(before, after, refinement_ctx, offers),
    ensures
        offers.len() == 1,
        refinement_ctx.population@ == seq![before.population.initial.individuals@[0]],
        after.telemetry@ == first_reports(before).push(
            TelemetryEvent::Initial { index: 0, total: 1 },
        ).push(TelemetryEvent::Generation { generation: 0, is_new_best: true }),
{
    let limit = before.population.max_size as nat;
    let terms = before.problem.objectives as nat;
    let head = first_reports(before);
    let c = before.population.initial.individuals@[0];
    let (middle, told) = choose|middle: Seq<Individual<S>>, told: Seq<TelemetryEvent>|
        {
            &&& #[trigger] may_seed(limit, terms, 1usize, head, offers, 1, middle, told)
            &&& forall|i: int|
                1 <= i < offers.len() ==> is_built_offer(
                    before,
                    #[trigger] offers[i],
                    middle.len() + i - 1,
                )
            &&& middle.len() + offers.len() - 1 <= 1
            &&& middle.len() + offers.len() - 1 < 1 ==> exists|state: RefinementContext<S, Q>|
                same_search(state, refinement_ctx) && #[trigger] before.termination.may_terminate(
                    &state,
                    true,
                )
        };
    assert(is_provided_offer(offers[0], c, 0));
    lemma_first_offer(limit, terms, 1usize, head, offers, middle, told);
    assert(offers.len() == 1);
    let reports = choose|reports: Seq<TelemetryEvent>|
        {
            &&& #[trigger] may_seed(
                limit,
                terms,
                1usize,
                head,
                offers,
                offers.len(),
                refinement_ctx.population@,
                reports,
            )
            &&& after.telemetry@ == reports.push(last_report(refinement_ctx.population@.len()))
        };
    lemma_first_offer(limit, terms, 1usize, head, offers, refinement_ctx.population@, reports);
}

/// The first offer is always made: it meets an empty population. What
/// comes of it is the individual alone, where the population has room and
/// the fitness has the right number of entries.
pub proof fn lemma_first_offer<S, Q>(
    limit: nat,
    terms: nat,
    total: usize,
    head: Seq<TelemetryEvent>,
    offers: Seq<InitialOffer<S, Q>>,
    population: Seq<Individual<S>>,
    reports: Seq<TelemetryEvent>,
)
    requires
        offers.len() >= 1,
        may_seed(limit, terms, total, head, offers, 1, population, reports),
    ensures
        reports == head.push(TelemetryEvent::Initial { index: offers[0].index, total }),
        limit >= 1 && offers[0].individual.fitness@.len() == terms ==> population
            == seq![offers[0].individual],
        population.len() <= 1,
{
    let (before, told) = choose|before: Seq<Individual<S>>, told: Seq<TelemetryEvent>|
        may_seed(limit, terms, total, head, offers, 0, before, told) && #[trigger] may_offer(
            before,
            told,
            limit,
            terms,
            total,
            offers[0].individual,
            offers[0].reached,
            offers[0].index,
            skipped_report(offers[0]),
            population,
            reports,
        ) && (offers[0].is_built ==> offers[0].asked.population@ == before);
    let accepted = choose|accepted: bool| #[trigger]
        is_added(before, limit, terms, offers[0].individual, population, accepted);
    lemma_offer_lengths(before, limit, terms, offers[0].individual, population, accepted);
}

/// Simulates an evolution.
pub struct EvolutionSimulator<M, T, Q, S, E> {
    config: EvolutionConfig<M, T, Q, S, E>,
}

impl<M: InitialMethod<S, Q>, T: Termination<S, Q>, Q: Quota, S, E: EvolutionStrategy<M, T, Q, S>> EvolutionSimulator<M, T, Q, S, E> {
    /// The configuration that the simulator holds.
    pub closed spec fn config(&self) -> EvolutionConfig<M, T, Q, S, E> {
        self.config
    }

    /// What every simulator satisfies: its configuration has been checked.
    pub open spec fn wf(&self) -> bool {
        valid_population(self.config().population)
    }

    /// Creates a simulator for a configuration, which is turned away with a
    /// message where the initial size is zero, where it exceeds the
    /// population's size, or where there is no initial method, in this order.
    pub fn new(config: EvolutionConfig<M, T, Q, S, E>) -> (r: Result<Self, String>)
        ensures
            config.population.initial.size < 1 ==> (r matches Err(e) && e@
                == initial_size_too_small()),
            1 <= config.population.initial.size && config.population.initial.size
                > config.population.max_size ==> (r matches Err(e) && e@
                == initial_size_too_large()),
            1 <= config.population.initial.size <= config.population.max_size
                && config.population.initial.methods@.len() == 0 ==> (r matches Err(e) && e@
                == no_initial_method()),
            valid_population(config.population) ==> (r matches Ok(simulator) && simulator.wf()
                && simulator.config() == config),
    {
        if config.population.initial.size < 1 {
            return Err("initial size should be greater than 0".to_owned());
        }
        if config.population.initial.size > config.population.max_size {
            return Err("initial size should be less or equal population size".to_owned());
        }
        if config.population.initial.methods.len() == 0 {
            return Err("at least one initial method has to be specified".to_owned());
        }
        Ok(EvolutionSimulator { config })
    }

    /// Creates the state of the search, with a population that holds the
    /// initial individuals: first those that the caller provided, as many
    /// as the initial size admits, then those that the initial methods
    /// build, until the population has the initial size or the
    /// termination says to end. The quota moves from the configuration
    /// into the state.
    ///
    /// The state comes of a sequence of offers, one for each provided and
    /// each built solution. Where the termination never ends the search,
    /// the quota is never reached and what the methods build has the
    /// right number of fitness entries, the population has the initial size.
    ///
    /// It fails only where a method has to be drawn and the weights admit no draw.
    pub fn create_refinement_ctx(&mut self) -> (r: Result<RefinementContext<S, Q>, String>)
        requires
            old(self).wf(),
        ensures
            final(self).wf(),
            is_prepared(old(self).config(), final(self).config()),
            drawable(weights_of(old(self).config().population.initial.methods@)) ==> r is Ok,
            r matches Err(e) ==> e@ == no_drawable_method(),
            r matches Ok(ctx) ==> is_seeded(old(self).config(), final(self).config(), ctx),
            r matches Ok(ctx) ==> exists|offers: Seq<InitialOffer<S, Q>>| #[trigger]
                is_seeding(old(self).config(), final(self).config(), ctx, offers),
            r matches Ok(ctx) ==> (never_terminates(old(self).config().termination) && never_reached(
                old(self).config().quota,
            ) && builds_fit(
                old(self).config().population.initial.methods@,
                old(self).config().problem.objectives as nat,
            ) ==> ctx.population@.len() == old(self).config().population.initial.size),
    {
        let ghost before = self.config;
        let ghost provided = before.population.initial.individuals@;
        let ghost limit = before.population.max_size as nat;
        let ghost terms = before.problem.objectives as nat;
        let ghost fills = never_terminates(before.termination) && never_reached(before.quota)
            && builds_fit(before.population.initial.methods@, terms);
        self.config.telemetry.start();
        let quota = self.config.quota.take();
        let mut refinement_ctx = RefinementContext {
            population: DominancePopulation::new(
                self.config.problem.objectives,
                self.config.population.max_size,
            ),
            quota,
            generation: 0,
            state: RefinementState::new(),
        };
        self.config.telemetry.log(
            TelemetryEvent::ProblemSize {
                jobs: self.config.problem.jobs.len(),
                actors: self.config.problem.fleet.actors.len(),
            },
        );
        let ghost head = self.config.telemetry@;
        let ghost mut offers: Seq<InitialOffer<S, Q>> = Seq::empty();
        proof {
            assert(head.subrange(0, head.len() as int) =~= head);
        }

        let mut individuals: Vec<Individual<S>> = Vec::new();
        std::mem::swap(&mut individuals, &mut self.config.population.initial.individuals);
        let total: usize = self.config.population.initial.size;
        let mut index: usize = 0;
        proof {
            assert(individuals@ =~= provided.subrange(0, provided.len() as int));
            assert(refinement_ctx.population@ =~= Seq::<Individual<S>>::empty());
        }
        while index < total && individuals.len() > 0
            invariant
                before == old(self).config,
                valid_population(before.population),
                head == first_reports(before),
                provided == before.population.initial.individuals@,
                limit == before.population.max_size,
                terms == before.problem.objectives,
                self.config.problem == before.problem,
                self.config.empty == before.empty,
                self.config.strategy == before.strategy,
                self.config.termination == before.termination,
                self.config.population.max_size == before.population.max_size,
                self.config.population.initial.size == before.population.initial.size,
                self.config.population.initial.methods == before.population.initial.methods,
                self.config.population.initial.individuals@.len() == 0,
                self.config.quota is None,
                total == before.population.initial.size,
                begins_with(self.config.telemetry@, head),
                refinement_ctx.population.wf(),
                refinement_ctx.population.limit() == limit,
                refinement_ctx.population.terms() == terms,
                refinement_ctx.quota == before.quota,
                refinement_ctx.generation == 0,
                forall|i: int|
                    0 <= i < offers.len() ==> option_may_answer(
                        before.quota,
                        (#[trigger] offers[i]).reached,
                    ),
                may_seed(
                    limit,
                    terms,
                    total,
                    head,
                    offers,
                    offers.len(),
                    refinement_ctx.population@,
                    self.config.telemetry@,
                ),
                index <= total,
                index <= provided.len(),
                individuals@ == provided.subrange(index as int, provided.len() as int),
                offers.len() == index,
                refinement_ctx.population@.len() <= index,
                forall|i: int|
                    0 <= i < index ==> is_provided_offer(#[trigger] offers[i], provided[i], i),
            decreases total - index,
        {
            let ghost remaining = individuals@;
            let individual = individuals.remove(0);
            let reached = is_quota_reached(&refinement_ctx);
            let ghost events = self.config.telemetry@;
            let ghost members = refinement_ctx.population@;
            let ghost offer = InitialOffer {
                individual,
                reached,
                index,
                is_built: false,
                asked: refinement_ctx,
            };
            let _ = offer_initial(
                &mut refinement_ctx,
                &mut self.config.telemetry,
                individual,
                index,
                total,
                reached,
                TelemetryEvent::SkippedProvided { index },
            );
            proof {
                lemma_begins_with_push(events, head, TelemetryEvent::Initial { index, total });
                lemma_begins_with_push(events, head, TelemetryEvent::SkippedProvided { index });
                assert(individual == provided[index as int]);
                assert(individuals@ =~= provided.subrange(index + 1, provided.len() as int));
                lemma_may_seed_step(
                    limit,
                    terms,
                    total,
                    head,
                    offers,
                    offer,
                    members,
                    events,
                    refinement_ctx.population@,
                    self.config.telemetry@,
                );
                let ghost more = offers.push(offer);
                assert forall|i: int| 0 <= i < more.len() implies option_may_answer(
                    before.quota,
                    (#[trigger] more[i]).reached,
                ) by {
                    if i < offers.len() {
                        assert(more[i] == offers[i]);
                    }
                }
                assert forall|i: int| 0 <= i < index + 1 implies is_provided_offer(
                    #[trigger] more[i],
                    provided[i],
                    i,
                ) by {
                    if i < offers.len() {
                        assert(more[i] == offers[i]);
                    }
                }
                offers = more;
            }
            index = index + 1;
        }

        let ghost n = offers.len();
        let ghost middle = refinement_ctx.population@;
        let ghost told = self.config.telemetry@;
        proof {
            assert(n == provided_count(before));
        }
        let weights = collect_weights(&self.config.population.initial.methods);
        let mut index: usize = refinement_ctx.population.size();
        let mut running: bool = true;
        while running && index < total
            invariant
                before == old(self).config,
                valid_population(before.population),
                head == first_reports(before),
                provided == before.population.initial.individuals@,
                limit == before.population.max_size,
                terms == before.problem.objectives,
                self.config.problem == before.problem,
                self.config.empty == before.empty,
                self.config.strategy == before.strategy,
                self.config.termination == before.termination,
                self.config.population.max_size == before.population.max_size,
                self.config.population.initial.size == before.population.initial.size,
                self.config.population.initial.methods == before.population.initial.methods,
                self.config.population.initial.individuals@.len() == 0,
                self.config.quota is None,
                total == before.population.initial.size,
                begins_with(self.config.telemetry@, head),
                refinement_ctx.population.wf(),
                refinement_ctx.population.limit() == limit,
                refinement_ctx.population.terms() == terms,
                refinement_ctx.quota == before.quota,
                refinement_ctx.generation == 0,
                forall|i: int|
                    0 <= i < offers.len() ==> option_may_answer(
                        before.quota,
                        (#[trigger] offers[i]).reached,
                    ),
                may_seed(
                    limit,
                    terms,
                    total,
                    head,
                    offers,
                    offers.len(),
                    refinement_ctx.population@,
                    self.config.telemetry@,
                ),
                weights@ == weights_of(before.population.initial.methods@),
                fills == (never_terminates(before.termination) && never_reached(before.quota)
                    && builds_fit(before.population.initial.methods@, terms)),
                n == provided_count(before),
                n <= offers.len(),
                index == middle.len() + offers.len() - n,
                index <= total || !running,
                middle.len() + offers.len() - n <= total,
                refinement_ctx.population@.len() <= index,
                refinement_ctx.population@.len() <= total,
                forall|i: int| 0 <= i < n ==> is_provided_offer(#[trigger] offers[i], provided[i], i),
                may_seed(limit, terms, total, head, offers, n, middle, told),
                forall|i: int|
                    n <= i < offers.len() ==> is_built_offer(
                        before,
                        #[trigger] offers[i],
                        middle.len() + i - n,
                    ),
                !running ==> exists|state: RefinementContext<S, Q>|
                    same_search(state, refinement_ctx)
                        && #[trigger] before.termination.may_terminate(&state, true),
                fills ==> running && refinement_ctx.population@.len() == index,
            decreases (if running { 1int } else { 0int }) + total - index,
        {
            let ghost first_asked = refinement_ctx;
            let terminated = self.config.termination.is_termination(&mut refinement_ctx);
            let ghost asked = refinement_ctx;
            proof {
                assert(same_search(first_asked, asked));
                assert(refinement_ctx.population@ == first_asked.population@);
            }
            if terminated {
                running = false;
                proof {
                    assert(before.termination.may_terminate(&first_asked, true));
                }
            } else {
                proof {
                    assert(before.termination.may_terminate(&first_asked, false));
                }
                let method_index: usize = match weighted(&mut self.config.random, &weights) {
                    Some(method_index) => method_index,
                    None => {
                        return Err("the weights of the initial methods admit no choice".to_owned());
                    },
                };
                let individual = self.config.population.initial.methods[method_index].0.run(
                    &refinement_ctx,
                    &self.config.empty,
                );
                let reached = is_quota_reached(&refinement_ctx);
                let ghost events = self.config.telemetry@;
                let ghost members = refinement_ctx.population@;
                let ghost offer = InitialOffer { individual, reached, index, is_built: true, asked };
                let _ = offer_initial(
                    &mut refinement_ctx,
                    &mut self.config.telemetry,
                    individual,
                    index,
                    total,
                    reached,
                    TelemetryEvent::SkippedBuilt { index },
                );
                proof {
                    lemma_begins_with_push(events, head, TelemetryEvent::Initial { index, total });
                    lemma_begins_with_push(events, head, TelemetryEvent::SkippedBuilt { index });
                    let ghost more = offers.push(offer);
                    let ghost k = method_index as int;
                    assert(before.population.initial.methods@[k].1 == weights@[k]);
                    assert(before.population.initial.methods@[k].0.may_build(
                        &asked,
                        &before.empty,
                        individual,
                    ));
                    assert(is_built_offer(before, offer, index as int));
                    lemma_may_seed_prefix(limit, terms, total, head, offers, more, n, middle, told);
                    lemma_may_seed_step(
                        limit,
                        terms,
                        total,
                        head,
                        offers,
                        offer,
                        members,
                        events,
                        refinement_ctx.population@,
                        self.config.telemetry@,
                    );
                    assert forall|i: int| 0 <= i < more.len() implies option_may_answer(
                        before.quota,
                        (#[trigger] more[i]).reached,
                    ) by {
                        if i < offers.len() {
                            assert(more[i] == offers[i]);
                        }
                    }
                    assert forall|i: int| 0 <= i < n implies is_provided_offer(
                        #[trigger] more[i],
                        provided[i],
                        i,
                    ) by {
                        assert(more[i] == offers[i]);
                    }
                    assert forall|i: int| n <= i < more.len() implies is_built_offer(
                        before,
                        #[trigger] more[i],
                        middle.len() + i - n,
                    ) by {
                        if i < offers.len() {
                            assert(more[i] == offers[i]);
                        }
                    }
                    if fills {
                        assert(individual.fitness@.len() == terms);
                        assert(option_may_answer(before.quota, reached));
                        assert(!reached);
                        assert(should_add(reached, members.len()));
                        lemma_insert_position(fitnesses(members), individual.fitness@);
                        assert(members.len() < limit);
                        assert(refinement_ctx.population@.len() == members.len() + 1);
                    }
                    offers = more;
                }
                index = index + 1;
            }
        }

        let ghost events = self.config.telemetry@;
        if refinement_ctx.population.size() > 0 {
            self.config.telemetry.on_generation(refinement_ctx.generation, true);
            proof {
                lemma_begins_with_push(
                    events,
                    head,
                    TelemetryEvent::Generation { generation: 0, is_new_best: true },
                );
            }
        } else {
            self.config.telemetry.log(TelemetryEvent::EmptyPopulation);
            proof {
                lemma_begins_with_push(events, head, TelemetryEvent::EmptyPopulation);
            }
        }
        proof {
            assert(self.config.telemetry@ == events.push(
                last_report(refinement_ctx.population@.len()),
            ));
            assert(may_seed(limit, terms, total, head, offers, n, middle, told));
            assert(may_seed(
                limit,
                terms,
                total,
                head,
                offers,
                offers.len(),
                refinement_ctx.population@,
                events,
            ));
            assert(is_seeding(before, self.config, refinement_ctx, offers));
        }
        Ok(refinement_ctx)
    }
}

impl<M: InitialMethod<S, Q>, T: Termination<S, Q>, Q: Quota, S, E: EvolutionStrategy<M, T, Q, S> + Clone> EvolutionSimulator<M, T, Q, S, E> {
    /// Runs the evolution: creates the state of the search and hands it,
    /// with the configuration, to a copy of the strategy. What comes back
    /// is the strategy's answer to the seeded state and the prepared
    /// configuration; without a state the strategy is not asked, and the
    /// message says that the weights of the initial methods admit no draw.
    pub fn run(self) -> (r: Result<EvolutionOutcome<S>, String>)
        requires
            self.wf(),
        ensures
            (r matches Err(message) && message@ == no_drawable_method() && !drawable(
                weights_of(self.config().population.initial.methods@),
            )) || (exists|
                strategy: E,
                refinement_ctx: RefinementContext<S, Q>,
                config: EvolutionConfig<M, T, Q, S, E>,
            |
                is_prepared(self.config(), config) && is_seeded(
                    self.config(),
                    config,
                    refinement_ctx,
                ) && (exists|offers: Seq<InitialOffer<S, Q>>| #[trigger]
                    is_seeding(self.config(), config, refinement_ctx, offers))
                    && #[trigger] strategy.may_give(refinement_ctx, config, r)),
    {
        let mut simulator = self;
        match simulator.create_refinement_ctx() {
            Ok(refinement_ctx) => {
                let strategy = simulator.config.strategy.clone();
                let ghost handed_ctx = refinement_ctx;
                let ghost handed_config = simulator.config;
                let r = strategy.run(refinement_ctx, simulator.config);
                proof {
                    assert(is_prepared(self.config(), handed_config));
                    assert(is_seeded(self.config(), handed_config, handed_ctx));
                    assert(exists|offers: Seq<InitialOffer<S, Q>>| #[trigger]
                        is_seeding(self.config(), handed_config, handed_ctx, offers));
                    assert(strategy.may_give(handed_ctx, handed_config, r));
                }
                r
            },
            Err(message) => Err(message),
        }
    }
}

} // verus!
