//! A solution under construction: who serves which job, which jobs
//! wait, and which actors are still free.

use crate::domain::{Actor, Job};
use crate::extras::Extras;
use crate::state::RouteState;
use crate::unassigned::UnassignedJobs;
use vstd::multiset::*;
use vstd::prelude::*;
use vstd::seq_lib::*;

verus! {

/// The tour of one actor, with what the constraint modules have noted on it.
pub struct RouteContext {
    /// The actor that drives the tour.
    pub actor: Actor,
    /// The jobs of the tour, in the order in which they are served.
    pub jobs: Vec<Job>,
    /// What the constraint modules keep for the route.
    pub state: RouteState,
}

/// The actors that no route uses.
pub struct Registry {
    /// The free actors, the next one to use first.
    pub available: Vec<Actor>,
}

/// A solution under construction.
pub struct SolutionContext {
    /// The jobs that wait to be assigned.
    pub required: Vec<Job>,
    /// The jobs that are left out.
    pub ignored: Vec<Job>,
    /// The jobs that must stay where they are.
    pub locked: Vec<Job>,
    /// The routes in use.
    pub routes: Vec<RouteContext>,
    /// The actors that no route uses.
    pub registry: Registry,
}

/// The jobs of the routes, each as often as the routes hold it.
pub open spec fn routes_bag(routes: Seq<RouteContext>) -> Multiset<Job>
    decreases routes.len(),
{
    if routes.len() == 0 {
        Multiset::empty()
    } else {
        routes_bag(routes.drop_last()).add(routes.last().jobs@.to_multiset())
    }
}

/// The actors of the routes, in the routes' order.
pub open spec fn route_actors(routes: Seq<RouteContext>) -> Seq<Actor> {
    Seq::new(routes.len(), |i: int| routes[i].actor)
}

/// The jobs of the routes are those of the routes without one of them, and those of that one.
pub proof fn lemma_routes_bag_remove(routes: Seq<RouteContext>, index: int)
    requires
        0 <= index < routes.len(),
    ensures
        routes_bag(routes) == routes_bag(routes.remove(index)).add(
            routes[index].jobs@.to_multiset(),
        ),
    decreases routes.len(),
{
    broadcast use group_multiset_axioms;

    let rest = routes.drop_last();
    if index == routes.len() - 1 {
        assert(routes.remove(index) =~= rest);
    } else {
        lemma_routes_bag_remove(rest, index);
        assert(routes.remove(index).drop_last() =~= rest.remove(index));
        assert(routes.remove(index).last() == routes.last());
        assert(routes_bag(routes) =~= routes_bag(routes.remove(index)).add(
            routes[index].jobs@.to_multiset(),
        ));
    }
}

/// The jobs of the routes with one more route are those of the routes, and those of that one.
pub proof fn lemma_routes_bag_insert(routes: Seq<RouteContext>, index: int, route: RouteContext)
    requires
        0 <= index <= routes.len(),
    ensures
        routes_bag(routes.insert(index, route)) == routes_bag(routes).add(
            route.jobs@.to_multiset(),
        ),
{
    let more = routes.insert(index, route);
    lemma_routes_bag_remove(more, index);
    assert(more.remove(index) =~= routes);
}

impl SolutionContext {
    /// All jobs of the solution: those that wait, those that are left out,
    /// those that are locked, and those of the routes, each as often as it is held.
    pub open spec fn job_bag(&self) -> Multiset<Job> {
        self.required@.to_multiset().add(self.ignored@.to_multiset()).add(
            self.locked@.to_multiset(),
        ).add(routes_bag(self.routes@))
    }

    /// All actors of the solution: those of the routes and the free ones,
    /// each as often as it is held.
    pub open spec fn actor_bag(&self) -> Multiset<Actor> {
        route_actors(self.routes@).to_multiset().add(self.registry.available@.to_multiset())
    }

    /// What every solution satisfies between two changes: no job is held
    /// twice, and no actor is.
    pub open spec fn wf(&self) -> bool {
        &&& forall|job: Job| self.job_bag().count(job) <= 1
        &&& forall|actor: Actor| self.actor_bag().count(actor) <= 1
    }

    /// Whether the solution accounts for each of the given jobs once, and for no other job.
    pub open spec fn is_partition_of(&self, jobs: Set<Job>) -> bool {
        forall|job: Job|
            #[trigger] self.job_bag().count(job) == (if jobs.contains(job) {
                1nat
            } else {
                0nat
            })
    }

    /// Moves a waiting job into a route, to the given position of its tour.
    pub fn insert_job(&mut self, required_index: usize, route_index: usize, position: usize)
        requires
            required_index < old(self).required@.len(),
            route_index < old(self).routes@.len(),
            position <= old(self).routes@[route_index as int].jobs@.len(),
        ensures
            final(self).job_bag() == old(self).job_bag(),
            final(self).actor_bag() == old(self).actor_bag(),
            final(self).required@ == old(self).required@.remove(required_index as int),
            final(self).ignored == old(self).ignored,
            final(self).locked == old(self).locked,
            final(self).registry == old(self).registry,
            final(self).routes@.len() == old(self).routes@.len(),
            forall|i: int|
                0 <= i < old(self).routes@.len() && i != route_index ==> final(self).routes@[i]
                    == old(self).routes@[i],
            final(self).routes@[route_index as int].actor == old(self).routes@[route_index as int].actor,
            final(self).routes@[route_index as int].state == old(self).routes@[route_index as int].state,
            final(self).routes@[route_index as int].jobs@ == old(self).routes@[route_index as int].jobs@.insert(
                position as int,
                old(self).required@[required_index as int],
            ),
    {
        broadcast use group_multiset_axioms;

        let ghost before = *self;
        let job = self.required.remove(required_index);
        let mut route = self.routes.remove(route_index);
        let ghost rest = self.routes@;
        route.jobs.insert(position, job);
        self.routes.insert(route_index, route);
        proof {
            to_multiset_remove(before.required@, required_index as int);
            lemma_routes_bag_remove(before.routes@, route_index as int);
            to_multiset_insert(
                before.routes@[route_index as int].jobs@,
                position as int,
                job,
            );
            lemma_routes_bag_insert(rest, route_index as int, route);
            before.required@.to_multiset_ensures();
            assert(before.required@.to_multiset().count(job) > 0);
            assert(self.job_bag() =~= before.job_bag());
            assert(route_actors(self.routes@) =~= route_actors(before.routes@));
        }
    }

    /// Takes a job out of a route's tour and lets it wait again, behind the
    /// jobs that wait already. A route that this leaves without a job is
    /// given up, and its actor is free again.
    pub fn remove_job(&mut self, route_index: usize, position: usize)
        requires
            route_index < old(self).routes@.len(),
            position < old(self).routes@[route_index as int].jobs@.len(),
        ensures
            final(self).job_bag() == old(self).job_bag(),
            final(self).actor_bag() == old(self).actor_bag(),
            final(self).required@ == old(self).required@.push(
                old(self).routes@[route_index as int].jobs@[position as int],
            ),
            final(self).ignored == old(self).ignored,
            final(self).locked == old(self).locked,
            old(self).routes@[route_index as int].jobs@.len() == 1 ==> {
                &&& final(self).routes@ == old(self).routes@.remove(route_index as int)
                &&& final(self).registry.available@ == old(self).registry.available@.push(
                    old(self).routes@[route_index as int].actor,
                )
            },
            old(self).routes@[route_index as int].jobs@.len() > 1 ==> {
                &&& final(self).registry == old(self).registry
                &&& final(self).routes@.len() == old(self).routes@.len()
                &&& forall|i: int|
                    0 <= i < old(self).routes@.len() && i != route_index ==> final(self).routes@[i] == old(self).routes@[i]
                &&& final(self).routes@[route_index as int].actor == old(self).routes@[route_index as int].actor
                &&& final(self).routes@[route_index as int].state == old(self).routes@[route_index as int].state
                &&& final(self).routes@[route_index as int].jobs@ == old(self).routes@[route_index as int].jobs@.remove(position as int)
            },
    {
        broadcast use group_multiset_axioms;

        let ghost before = *self;
        let mut route = self.routes.remove(route_index);
        let ghost rest = self.routes@;
        let job = route.jobs.remove(position);
        self.required.push(job);
        proof {
            lemma_routes_bag_remove(before.routes@, route_index as int);
            to_multiset_remove(before.routes@[route_index as int].jobs@, position as int);
            before.required@.to_multiset_ensures();
            before.routes@[route_index as int].jobs@.to_multiset_ensures();
            assert(before.routes@[route_index as int].jobs@.to_multiset().count(job) > 0);
            assert(rest =~= before.routes@.remove(route_index as int));
            assert(route_actors(rest) =~= route_actors(before.routes@).remove(route_index as int));
            to_multiset_remove(route_actors(before.routes@), route_index as int);
            route_actors(before.routes@).to_multiset_ensures();
            assert(route_actors(before.routes@).to_multiset().count(route.actor) > 0);
        }
        if route.jobs.len() == 0 {
            proof {
                before.registry.available@.to_multiset_ensures();
                assert(route.jobs@.to_multiset() =~= Multiset::<Job>::empty());
            }
            self.registry.available.push(route.actor);
            proof {
                assert(self.job_bag() =~= before.job_bag());
                assert(self.actor_bag() =~= before.actor_bag());
            }
        } else {
            self.routes.insert(route_index, route);
            proof {
                lemma_routes_bag_insert(rest, route_index as int, route);
                assert(self.job_bag() =~= before.job_bag());
                assert(route_actors(self.routes@) =~= route_actors(before.routes@));
            }
        }
    }

    /// Gives a route up: its jobs wait again, behind the jobs that wait
    /// already and in the order of the tour, and its actor is free again.
    pub fn remove_route(&mut self, route_index: usize)
        requires
            route_index < old(self).routes@.len(),
        ensures
            final(self).job_bag() == old(self).job_bag(),
            final(self).actor_bag() == old(self).actor_bag(),
            final(self).required@ == old(self).required@ + old(self).routes@[route_index as int].jobs@,
            final(self).ignored == old(self).ignored,
            final(self).locked == old(self).locked,
            final(self).routes@ == old(self).routes@.remove(route_index as int),
            final(self).registry.available@ == old(self).registry.available@.push(
                old(self).routes@[route_index as int].actor,
            ),
    {
        broadcast use group_multiset_axioms;

        let ghost before = *self;
        let route = self.routes.remove(route_index);
        let actor = route.actor;
        let mut jobs = route.jobs;
        self.required.append(&mut jobs);
        self.registry.available.push(actor);
        proof {
            lemma_routes_bag_remove(before.routes@, route_index as int);
            lemma_multiset_commutative(
                before.required@,
                before.routes@[route_index as int].jobs@,
            );
            before.registry.available@.to_multiset_ensures();
            assert(self.routes@ =~= before.routes@.remove(route_index as int));
            assert(route_actors(self.routes@) =~= route_actors(before.routes@).remove(
                route_index as int,
            ));
            to_multiset_remove(route_actors(before.routes@), route_index as int);
            route_actors(before.routes@).to_multiset_ensures();
            assert(route_actors(before.routes@).to_multiset().count(actor) > 0);
            assert(self.job_bag() =~= before.job_bag());
            assert(self.actor_bag() =~= before.actor_bag());
        }
    }

    /// Opens a route for the next free actor, behind the routes in use, and
    /// gives its index; without a free actor nothing changes.
    pub fn open_route(&mut self) -> (r: Option<usize>)
        ensures
            final(self).job_bag() == old(self).job_bag(),
            final(self).actor_bag() == old(self).actor_bag(),
            final(self).required == old(self).required,
            final(self).ignored == old(self).ignored,
            final(self).locked == old(self).locked,
            old(self).registry.available@.len() == 0 ==> r is None && *final(self) == *old(self),
            old(self).registry.available@.len() > 0 ==> {
                &&& r == Some(old(self).routes.len())
                &&& final(self).registry.available@ == old(self).registry.available@.remove(0)
                &&& final(self).routes@.len() == old(self).routes@.len() + 1
                &&& final(self).routes@.drop_last() == old(self).routes@
                &&& final(self).routes@.last().actor == old(self).registry.available@[0]
                &&& final(self).routes@.last().jobs@.len() == 0
                &&& final(self).routes@.last().state@ == crate::state::no_entries()
            },
    {
        broadcast use group_multiset_axioms;

        if self.registry.available.len() == 0 {
            return None;
        }
        let ghost before = *self;
        let actor = self.registry.available.remove(0);
        let index = self.routes.len();
        let route = RouteContext { actor, jobs: Vec::new(), state: RouteState::new() };
        self.routes.push(route);
        proof {
            to_multiset_remove(before.registry.available@, 0);
            before.registry.available@.to_multiset_ensures();
            assert(before.registry.available@.to_multiset().count(actor) > 0);
            assert(self.routes@.drop_last() =~= before.routes@);
            route.jobs@.to_multiset_ensures();
            assert(route.jobs@.to_multiset().len() == 0);
            assert(route.jobs@.to_multiset() =~= Multiset::<Job>::empty());
            assert(route_actors(self.routes@) =~= route_actors(before.routes@).push(actor));
            route_actors(before.routes@).to_multiset_ensures();
            assert(self.job_bag() =~= before.job_bag());
            assert(self.actor_bag() =~= before.actor_bag());
        }
        Some(index)
    }
}

/// Whether no two of the jobs have one identifier.
pub open spec fn distinct_ids(jobs: Seq<Job>) -> bool {
    forall|i: int, j: int| 0 <= i < j < jobs.len() ==> (#[trigger] jobs[i]).id != (#[trigger] jobs[j]).id
}

/// Whether some route holds the job.
pub open spec fn in_some_route(routes: Seq<RouteContext>, job: Job) -> bool {
    exists|i: int| 0 <= i < routes.len() && (#[trigger] routes[i]).jobs@.contains(job)
}

/// A job that no route holds is not among the jobs of the routes, and a
/// job that a route holds is, at least as often as that route holds it.
pub proof fn lemma_routes_bag_count(routes: Seq<RouteContext>, job: Job)
    ensures
        routes_bag(routes).count(job) > 0 <==> in_some_route(routes, job),
        forall|i: int|
            0 <= i < routes.len() ==> routes_bag(routes).count(job) >= (
            #[trigger] routes[i]).jobs@.to_multiset().count(job),
    decreases routes.len(),
{
    broadcast use group_multiset_axioms;

    if routes.len() > 0 {
        let rest = routes.drop_last();
        lemma_routes_bag_count(rest, job);
        routes.last().jobs@.to_multiset_ensures();
        if in_some_route(rest, job) {
            let i = choose|i: int| 0 <= i < rest.len() && (#[trigger] rest[i]).jobs@.contains(job);
            assert(routes[i] == rest[i]);
        }
        if in_some_route(routes, job) {
            let i = choose|i: int|
                0 <= i < routes.len() && (#[trigger] routes[i]).jobs@.contains(job);
            if i < rest.len() {
                assert(rest[i] == routes[i]);
            }
        }
        assert forall|i: int| 0 <= i < routes.len() implies routes_bag(routes).count(job) >= (
        #[trigger] routes[i]).jobs@.to_multiset().count(job) by {
            if i < rest.len() {
                assert(rest[i] == routes[i]);
            }
        }
    }
}

/// A job that two routes hold is twice among the jobs of the routes.
pub proof fn lemma_routes_bag_twice(routes: Seq<RouteContext>, first: int, second: int, job: Job)
    requires
        0 <= first < second < routes.len(),
        routes[first].jobs@.contains(job),
        routes[second].jobs@.contains(job),
    ensures
        routes_bag(routes).count(job) >= 2,
{
    broadcast use group_multiset_axioms;

    lemma_routes_bag_remove(routes, second);
    let rest = routes.remove(second);
    assert(rest[first] == routes[first]);
    lemma_routes_bag_count(rest, job);
    routes[first].jobs@.to_multiset_ensures();
    routes[second].jobs@.to_multiset_ensures();
}

/// A change that keeps all jobs of a solution keeps the solution a
/// partition of the jobs that it was a partition of.
pub proof fn lemma_partition_kept(before: SolutionContext, after: SolutionContext, jobs: Set<Job>)
    requires
        before.is_partition_of(jobs),
        after.job_bag() == before.job_bag(),
    ensures
        after.is_partition_of(jobs),
{
}

/// In a solution that is a partition of some jobs, each of these jobs is
/// in exactly one place: it waits, or it is left out, or it is locked, or
/// one route holds it; and it is there once.
pub proof fn lemma_exactly_one_place(solution: SolutionContext, jobs: Set<Job>, job: Job)
    requires
        solution.is_partition_of(jobs),
        jobs.contains(job),
    ensures
        solution.required@.contains(job) || solution.ignored@.contains(job)
            || solution.locked@.contains(job) || in_some_route(solution.routes@, job),
        !(solution.required@.contains(job) && solution.ignored@.contains(job)),
        !(solution.required@.contains(job) && solution.locked@.contains(job)),
        !(solution.required@.contains(job) && in_some_route(solution.routes@, job)),
        !(solution.ignored@.contains(job) && solution.locked@.contains(job)),
        !(solution.ignored@.contains(job) && in_some_route(solution.routes@, job)),
        !(solution.locked@.contains(job) && in_some_route(solution.routes@, job)),
        solution.required@.to_multiset().count(job) <= 1,
        solution.ignored@.to_multiset().count(job) <= 1,
        solution.locked@.to_multiset().count(job) <= 1,
        forall|i: int, k: int|
            0 <= i < k < solution.routes@.len() ==> !((#[trigger] solution.routes@[i]).jobs@.contains(
                job,
            ) && (#[trigger] solution.routes@[k]).jobs@.contains(job)),
        forall|i: int|
            0 <= i < solution.routes@.len() ==> (
            #[trigger] solution.routes@[i]).jobs@.to_multiset().count(job) <= 1,
{
    broadcast use group_multiset_axioms;

    assert(solution.job_bag().count(job) == 1);
    solution.required@.to_multiset_ensures();
    solution.ignored@.to_multiset_ensures();
    solution.locked@.to_multiset_ensures();
    lemma_routes_bag_count(solution.routes@, job);
    assert forall|i: int, k: int| 0 <= i < k < solution.routes@.len() implies !((
    #[trigger] solution.routes@[i]).jobs@.contains(job) && (
    #[trigger] solution.routes@[k]).jobs@.contains(job)) by {
        if solution.routes@[i].jobs@.contains(job) && solution.routes@[k].jobs@.contains(job) {
            lemma_routes_bag_twice(solution.routes@, i, k, job);
        }
    }
}

/// In a solution where no actor is held twice, no two routes have one
/// actor, and no route has a free actor.
pub proof fn lemma_actors_are_unique(solution: SolutionContext)
    requires
        forall|actor: Actor| solution.actor_bag().count(actor) <= 1,
    ensures
        forall|i: int, k: int|
            0 <= i < k < solution.routes@.len() ==> (#[trigger] solution.routes@[i]).actor != (
            #[trigger] solution.routes@[k]).actor,
        forall|i: int, k: int|
            0 <= i < solution.routes@.len() && 0 <= k < solution.registry.available@.len() ==> (
            #[trigger] solution.routes@[i]).actor != #[trigger] solution.registry.available@[k],
        solution.registry.available@.no_duplicates(),
{
    broadcast use group_multiset_axioms;

    let actors = route_actors(solution.routes@);
    let free = solution.registry.available@;
    actors.to_multiset_ensures();
    free.to_multiset_ensures();
    assert forall|actor: Actor| actors.to_multiset().contains(actor) implies actors.to_multiset().count(
        actor,
    ) == 1 by {
        assert(solution.actor_bag().count(actor) <= 1);
    }
    actors.lemma_multiset_has_no_duplicates_conv();
    assert forall|actor: Actor| free.to_multiset().contains(actor) implies free.to_multiset().count(
        actor,
    ) == 1 by {
        assert(solution.actor_bag().count(actor) <= 1);
    }
    free.lemma_multiset_has_no_duplicates_conv();
    assert forall|i: int, k: int| 0 <= i < k < solution.routes@.len() implies (
    #[trigger] solution.routes@[i]).actor != (#[trigger] solution.routes@[k]).actor by {
        assert(actors[i] != actors[k]);
    }
    assert forall|i: int, k: int|
        0 <= i < solution.routes@.len() && 0 <= k < solution.registry.available@.len() implies (
    #[trigger] solution.routes@[i]).actor != #[trigger] solution.registry.available@[k] by {
        let actor = actors[i];
        assert(actors.contains(actor));
        if actor == free[k] {
            assert(free.contains(actor));
            assert(solution.actor_bag().count(actor) >= 2);
        }
    }
}

fn has_distinct_ids(jobs: &Vec<Job>) -> (r: bool)
    ensures
        r == distinct_ids(jobs@),
{
    let mut j: usize = 0;
    while j < jobs.len()
        invariant
            j <= jobs@.len(),
            forall|a: int, b: int| 0 <= a < b < j ==> (#[trigger] jobs@[a]).id != (#[trigger] jobs@[b]).id,
        decreases jobs@.len() - j,
    {
        let mut i: usize = 0;
        while i < j
            invariant
                i <= j < jobs@.len(),
                forall|a: int| 0 <= a < i ==> (#[trigger] jobs@[a]).id != jobs@[j as int].id,
            decreases j - i,
        {
            if jobs[i].id == jobs[j].id {
                return false;
            }
            i = i + 1;
        }
        j = j + 1;
    }
    true
}

fn has_distinct_actors(actors: &Vec<Actor>) -> (r: bool)
    ensures
        r == actors@.no_duplicates(),
{
    let mut j: usize = 0;
    while j < actors.len()
        invariant
            j <= actors@.len(),
            forall|a: int, b: int| 0 <= a < b < j ==> actors@[a] != actors@[b],
        decreases actors@.len() - j,
    {
        let mut i: usize = 0;
        while i < j
            invariant
                i <= j < actors@.len(),
                forall|a: int| 0 <= a < i ==> actors@[a] != actors@[j as int],
            decreases j - i,
        {
            if actors[i] == actors[j] {
                return false;
            }
            i = i + 1;
        }
        j = j + 1;
    }
    true
}

impl SolutionContext {
    /// Creates the solution in which every job waits and every actor is
    /// free. There is none where two jobs have one identifier or an actor
    /// is named twice.
    pub fn new(jobs: Vec<Job>, actors: Vec<Actor>) -> (r: Option<Self>)
        ensures
            r is Some <==> distinct_ids(jobs@) && actors@.no_duplicates(),
            r matches Some(solution) ==> {
                &&& solution.wf()
                &&& solution.is_partition_of(jobs@.to_set())
                &&& solution.required == jobs
                &&& solution.ignored@.len() == 0
                &&& solution.locked@.len() == 0
                &&& solution.routes@.len() == 0
                &&& solution.registry.available == actors
            },
    {
        broadcast use group_multiset_axioms;

        if !has_distinct_ids(&jobs) || !has_distinct_actors(&actors) {
            return None;
        }
        let solution = SolutionContext {
            required: jobs,
            ignored: Vec::new(),
            locked: Vec::new(),
            routes: Vec::new(),
            registry: Registry { available: actors },
        };
        proof {
            assert(jobs@.no_duplicates());
            jobs@.lemma_multiset_has_no_duplicates();
            actors@.lemma_multiset_has_no_duplicates();
            jobs@.to_multiset_ensures();
            actors@.to_multiset_ensures();
            solution.ignored@.to_multiset_ensures();
            solution.locked@.to_multiset_ensures();
            route_actors(solution.routes@).to_multiset_ensures();
            assert(solution.ignored@.to_multiset().len() == 0);
            assert(solution.locked@.to_multiset().len() == 0);
            assert(route_actors(solution.routes@).to_multiset().len() == 0);
            assert(solution.job_bag() =~= jobs@.to_multiset());
            assert(solution.actor_bag() =~= actors@.to_multiset());
            assert forall|job: Job| #[trigger]
                solution.job_bag().count(job) == (if jobs@.to_set().contains(job) {
                    1nat
                } else {
                    0nat
                }) by {
                if jobs@.contains(job) {
                    assert(jobs@.to_multiset().contains(job));
                }
            }
        }
        Some(solution)
    }
}

/// A solution as the search gives it.
pub struct Solution {
    /// The actors that no route uses.
    pub registry: Registry,
    /// The routes.
    pub routes: Vec<RouteContext>,
    /// The unassigned jobs, each with the code of the reason.
    pub unassigned: UnassignedJobs,
    /// The extras of the problem.
    pub extras: Extras,
}

/// Whether one of the jobs has the identifier.
pub open spec fn has_id(jobs: Seq<Job>, id: u64) -> bool {
    exists|i: int| 0 <= i < jobs.len() && (#[trigger] jobs[i]).id == id
}

/// The map that holds the code under the identifier of each of the jobs.
pub open spec fn reasons(jobs: Seq<Job>, code: i32) -> Map<u64, i32> {
    Map::new(|id: u64| has_id(jobs, id), |id: u64| code)
}

impl SolutionContext {
    /// Ends the construction: the routes and the free actors stay, and
    /// each job that still waits is unassigned, for the given reason.
    pub fn into_solution(self, code: i32, extras: Extras) -> (r: Solution)
        ensures
            r.registry == self.registry,
            r.routes == self.routes,
            r.extras == extras,
            r.unassigned@ == reasons(self.required@, code),
    {
        let mut unassigned = UnassignedJobs::new();
        let mut i: usize = 0;
        proof {
            assert(unassigned@ =~= reasons(self.required@.take(0), code));
        }
        while i < self.required.len()
            invariant
                i <= self.required@.len(),
                unassigned@ == reasons(self.required@.take(i as int), code),
            decreases self.required@.len() - i,
        {
            let ghost before = unassigned@;
            let id = self.required[i].id;
            unassigned.insert(id, code);
            proof {
                let done = self.required@.take(i as int);
                let more = self.required@.take(i as int + 1);
                assert forall|key: u64| has_id(more, key) <==> (has_id(done, key) || key == id) by {
                    if has_id(more, key) {
                        let w = choose|w: int| 0 <= w < more.len() && (#[trigger] more[w]).id == key;
                        if w < i {
                            assert(done[w] == more[w]);
                        }
                    }
                    if has_id(done, key) {
                        let w = choose|w: int| 0 <= w < done.len() && (#[trigger] done[w]).id == key;
                        assert(more[w] == done[w]);
                    }
                    if key == id {
                        assert(more[i as int].id == id);
                    }
                }
                assert(unassigned@ =~= reasons(more, code));
            }
            i = i + 1;
        }
        proof {
            assert(self.required@.take(i as int) =~= self.required@);
        }
        Solution { registry: self.registry, routes: self.routes, unassigned, extras }
    }
}

} // verus!
