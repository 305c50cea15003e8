//! What an insertion step works on: the jobs that are tried and the
//! routes that they are tried in.

use crate::domain::{Actor, Job};
use crate::insertion::{
    may_collect, may_evaluate_all, may_evaluate_job, may_evaluate_route, BestResultSelector,
    Candidates, InsertionPosition, InsertionResult, PositionInsertionEvaluator, ResultSelector,
};
use crate::random::{is_head_not_tails, shuffle};
use crate::solution::{
    lemma_routes_bag_remove, route_actors, routes_bag, RouteContext, SolutionContext,
};
use rand::rngs::StdRng;
use vstd::multiset::*;
use vstd::prelude::*;
use vstd::seq_lib::*;

verus! {

/// The identifiers of the jobs, in the jobs' order.
pub open spec fn ids_of(jobs: Seq<Job>) -> Seq<u64> {
    Seq::new(jobs.len(), |i: int| jobs[i].id)
}

/// Routes that hold the same route contexts, in whatever order, hold the same jobs.
pub proof fn lemma_routes_bag_of_reordered(first: Seq<RouteContext>, second: Seq<RouteContext>)
    requires
        first.to_multiset() == second.to_multiset(),
    ensures
        routes_bag(first) == routes_bag(second),
        route_actors(first).to_multiset() == route_actors(second).to_multiset(),
    decreases first.len(),
{
    broadcast use group_multiset_axioms;

    first.to_multiset_ensures();
    second.to_multiset_ensures();
    if first.len() == 0 {
        assert(second.len() == 0);
        assert(route_actors(first) =~= route_actors(second));
    } else {
        let last = first.last();
        assert(first.contains(last));
        assert(second.to_multiset().count(last) > 0);
        assert(second.contains(last));
        let index = choose|index: int| 0 <= index < second.len() && second[index] == last;
        let head = first.drop_last();
        let rest = second.remove(index);
        assert(head =~= first.remove(first.len() - 1));
        to_multiset_remove(first, first.len() - 1);
        to_multiset_remove(second, index);
        lemma_routes_bag_of_reordered(head, rest);
        lemma_routes_bag_remove(second, index);
        assert(route_actors(head) =~= route_actors(first).remove(first.len() - 1));
        assert(route_actors(rest) =~= route_actors(second).remove(index));
        to_multiset_remove(route_actors(first), first.len() - 1);
        to_multiset_remove(route_actors(second), index);
        route_actors(first).to_multiset_ensures();
        route_actors(second).to_multiset_ensures();
        assert(route_actors(first)[first.len() - 1] == last.actor);
        assert(route_actors(second)[index] == last.actor);
        assert(route_actors(first).to_multiset().count(last.actor) > 0);
        assert(route_actors(second).to_multiset().count(last.actor) > 0);
        let a = route_actors(first).to_multiset();
        let b = route_actors(second).to_multiset();
        assert(a.remove(last.actor) == b.remove(last.actor));
        assert forall|actor: Actor| a.count(actor) == b.count(actor) by {
            assert(a.remove(last.actor).count(actor) == b.remove(last.actor).count(actor));
        }
        assert(a =~= b);
    }
}

/// On each insertion step, selects a list of jobs to be inserted.
/// It is up to implementation to decide whether list consists of all jobs or just some subset.
pub trait JobSelector {
    /// Returns a portion of all jobs, by their identifiers. The solution
    /// may be changed, as long as it holds the same jobs and actors afterwards.
    fn select(&self, rng: &mut StdRng, solution: &mut SolutionContext) -> (r: Vec<u64>)
        ensures
            final(solution).job_bag() == old(solution).job_bag(),
            final(solution).actor_bag() == old(solution).actor_bag(),
    ;
}

/// Returns a list of all jobs to be inserted.
pub struct AllJobSelector {}

impl Default for AllJobSelector {
    fn default() -> Self {
        AllJobSelector {  }
    }
}

impl JobSelector for AllJobSelector {
    /// Brings the waiting jobs of the solution into a random order, and
    /// gives their identifiers in that order. The solution holds the same
    /// jobs and actors as before.
    fn select(&self, rng: &mut StdRng, solution: &mut SolutionContext) -> (r: Vec<u64>)
        ensures
            final(solution).required@.to_multiset() == old(solution).required@.to_multiset(),
            final(solution).required@.len() == old(solution).required@.len(),
            final(solution).ignored == old(solution).ignored,
            final(solution).locked == old(solution).locked,
            final(solution).routes == old(solution).routes,
            final(solution).registry == old(solution).registry,
            r@ == ids_of(final(solution).required@),
    {
        shuffle(rng, &mut solution.required);
        let mut ids: Vec<u64> = Vec::new();
        let mut i: usize = 0;
        while i < solution.required.len()
            invariant
                i <= solution.required@.len(),
                ids@.len() == i,
                forall|k: int| 0 <= k < i ==> ids@[k] == solution.required@[k].id,
            decreases solution.required@.len() - i,
        {
            ids.push(solution.required[i].id);
            i = i + 1;
        }
        proof {
            assert(ids@ =~= ids_of(solution.required@));
        }
        ids
    }
}

/// The routes that a job can be tried in.
pub struct SelectedRoutes {
    /// The number of routes in use; each of them is selected.
    pub routes: usize,
    /// The actor for whom a route can be opened, if one is free.
    pub next: Option<Actor>,
}

/// On each insertion step, selects a list of routes where jobs can be inserted.
/// It is up to implementation to decide whether list consists of all possible routes or just some subset.
pub trait RouteSelector {
    /// Returns routes for the insertion of the given jobs. The solution
    /// may be changed, as long as it holds the same jobs and actors afterwards.
    fn select(&self, rng: &mut StdRng, solution: &mut SolutionContext, jobs: &Vec<u64>) -> (r:
        SelectedRoutes)
        ensures
            final(solution).job_bag() == old(solution).job_bag(),
            final(solution).actor_bag() == old(solution).actor_bag(),
    ;
}

/// Returns a list of all possible routes for insertion.
pub struct AllRouteSelector {}

impl Default for AllRouteSelector {
    fn default() -> Self {
        AllRouteSelector {  }
    }
}

impl RouteSelector for AllRouteSelector {
    /// Brings the routes of the solution into a random order and selects
    /// all of them, whatever the jobs, and with them the next free actor,
    /// if there is one. The solution holds the same jobs and actors as before.
    fn select(&self, rng: &mut StdRng, solution: &mut SolutionContext, jobs: &Vec<u64>) -> (r:
        SelectedRoutes)
        ensures
            final(solution).routes@.to_multiset() == old(solution).routes@.to_multiset(),
            final(solution).routes@.len() == old(solution).routes@.len(),
            final(solution).required == old(solution).required,
            final(solution).ignored == old(solution).ignored,
            final(solution).locked == old(solution).locked,
            final(solution).registry == old(solution).registry,
            r.routes == final(solution).routes@.len(),
            r.next == (if old(solution).registry.available@.len() > 0 {
                Some(old(solution).registry.available@[0])
            } else {
                None
            }),
    {
        shuffle(rng, &mut solution.routes);
        proof {
            lemma_routes_bag_of_reordered(old(solution).routes@, solution.routes@);
        }
        let next = if solution.registry.available.len() > 0 {
            Some(solution.registry.available[0])
        } else {
            None
        };
        SelectedRoutes { routes: solution.routes.len(), next }
    }
}

impl Default for BestResultSelector {
    fn default() -> Self {
        BestResultSelector::new()
    }
}

impl Default for PositionInsertionEvaluator {
    fn default() -> (r: Self)
        ensures
            r.policy() == InsertionPosition::Any,
    {
        PositionInsertionEvaluator::new(InsertionPosition::Any)
    }
}

/// Decides by the flip of a coin whether all jobs and routes are
/// evaluated job by job or route by route.
pub fn is_fold_jobs(rng: &mut StdRng) -> bool {
    is_head_not_tails(rng)
}

/// Evaluates insertion.
pub trait InsertionEvaluator {
    /// Evaluates insertion of a single job into given collection of routes.
    fn evaluate_job<R: ResultSelector>(
        &self,
        candidates: &Candidates,
        job: usize,
        result_selector: &R,
    ) -> InsertionResult
        requires
            candidates.wf(),
            job < candidates.jobs@.len(),
    ;

    /// Evaluates insertion of multiple jobs into given route.
    fn evaluate_route<R: ResultSelector>(
        &self,
        candidates: &Candidates,
        route: usize,
        result_selector: &R,
    ) -> InsertionResult
        requires
            candidates.wf(),
            route < candidates.routes,
    ;

    /// Evaluates insertion of a job collection into given collection of routes.
    fn evaluate_all<R: ResultSelector>(
        &self,
        rng: &mut StdRng,
        candidates: &Candidates,
        result_selector: &R,
    ) -> InsertionResult
        requires
            candidates.wf(),
    ;
}

impl InsertionEvaluator for PositionInsertionEvaluator {
    fn evaluate_job<R: ResultSelector>(
        &self,
        candidates: &Candidates,
        job: usize,
        result_selector: &R,
    ) -> (r: InsertionResult)
        ensures
            may_evaluate_job(
                result_selector,
                *candidates,
                self.policy(),
                job as int,
                candidates.routes as nat,
                r,
            ),
    {
        self.evaluate_job_in_routes(candidates, job, result_selector)
    }

    fn evaluate_route<R: ResultSelector>(
        &self,
        candidates: &Candidates,
        route: usize,
        result_selector: &R,
    ) -> (r: InsertionResult)
        ensures
            may_evaluate_route(
                result_selector,
                *candidates,
                self.policy(),
                route as int,
                candidates.jobs@.len(),
                r,
            ),
    {
        self.evaluate_jobs_in_route(candidates, route, result_selector)
    }

    /// Evaluates all jobs and routes and selects among the results; a
    /// coin decides whether this is done job by job or route by route.
    fn evaluate_all<R: ResultSelector>(
        &self,
        rng: &mut StdRng,
        candidates: &Candidates,
        result_selector: &R,
    ) -> (r: InsertionResult)
        ensures
            exists|is_fold_jobs: bool| #[trigger]
                may_evaluate_all(result_selector, *candidates, self.policy(), is_fold_jobs, r),
    {
        let fold = is_fold_jobs(rng);
        let r = self.evaluate_folded(candidates, fold, result_selector);
        proof {
            assert(may_evaluate_all(result_selector, *candidates, self.policy(), fold, r));
        }
        r
    }
}

impl PositionInsertionEvaluator {
    /// Evaluates all jobs and routes and gives the result of each job, or
    /// of each route; a coin decides which.
    pub fn evaluate_and_collect_all<R: ResultSelector>(
        &self,
        rng: &mut StdRng,
        candidates: &Candidates,
        result_selector: &R,
    ) -> (r: Vec<InsertionResult>)
        requires
            candidates.wf(),
        ensures
            exists|is_fold_jobs: bool| #[trigger]
                may_collect(result_selector, *candidates, self.policy(), is_fold_jobs, r@),
    {
        let fold = is_fold_jobs(rng);
        let r = self.collect_folded(candidates, fold, result_selector);
        proof {
            assert(may_collect(result_selector, *candidates, self.policy(), fold, r@));
        }
        r
    }
}

} // verus!
