//! The compatibility module: jobs with different tags do not share a tour.

use crate::domain::Job;
use crate::reader::{ConstraintModuleKind, ConstraintPipeline};
use crate::solution::{RouteContext, SolutionContext};
use vstd::prelude::*;

verus! {

/// The key of the dimension that holds a job's compatibility tag.
pub const COMPATIBILITY_DIMEN_KEY: i32 = 1;

/// A hard route constraint was violated.
#[derive(Clone, Copy, Debug, PartialEq, Eq, Structural)]
pub struct RouteConstraintViolation {
    /// The code of the violated constraint.
    pub code: i32,
}

/// Keeps a job out of a route whose jobs have another tag.
#[derive(Clone, Copy, Debug, PartialEq, Eq, Structural)]
pub struct CompatibilityHardRouteConstraint {
    /// The code that a violation is reported with.
    pub code: i32,
    /// The key under which the route's tag is kept.
    pub state_key: i32,
}

/// A constraint of a module.
#[derive(Clone, Copy, Debug, PartialEq, Eq, Structural)]
pub enum ConstraintVariant {
    /// A constraint that is asked before any position of a route is tried.
    HardRoute(CompatibilityHardRouteConstraint),
}

/// A compatibility module provides the way to avoid assigning some jobs in the same tour.
pub struct CompatibilityModule {
    code: i32,
    constraints: Vec<ConstraintVariant>,
    state_key: i32,
    state_keys: Vec<i32>,
    dimen_keys: Vec<i32>,
}

/// The tag of the first job that has one, from the place `from` on.
pub open spec fn first_tag(jobs: Seq<Job>, from: int) -> Option<String>
    decreases jobs.len() - from,
{
    if from < 0 || from >= jobs.len() {
        None
    } else {
        match jobs[from].dimens.compatibility {
            Some(tag) => Some(tag),
            None => first_tag(jobs, from + 1),
        }
    }
}

/// The tag of a tour: that of its first job that has one.
pub open spec fn route_compatibility(jobs: Seq<Job>) -> Option<String> {
    first_tag(jobs, 0)
}

/// The state of a route after the module has looked at the tour: a tag
/// is noted under the module's key; without a tag, an entry that is there
/// is emptied, and none is made.
pub open spec fn accepted_state(
    entries: Map<i32, Option<String>>,
    key: i32,
    tag: Option<String>,
) -> Map<i32, Option<String>> {
    match tag {
        Some(tag) => entries.insert(key, Some(tag)),
        None => if entries.contains_key(key) {
            entries.insert(key, None)
        } else {
            entries
        },
    }
}

/// Whether two tags admit one tour: both jobs have none, or both have the same.
pub open spec fn same_tag(first: Option<String>, second: Option<String>) -> bool {
    match (first, second) {
        (None, None) => true,
        (Some(a), Some(b)) => a@ == b@,
        _ => false,
    }
}

/// The violation that a job with the tag `tag` meets in a route with the
/// given state: one with the code `code` where the route has a tag and
/// the job has another one, else none.
pub open spec fn violation_of(
    code: i32,
    entries: Map<i32, Option<String>>,
    key: i32,
    tag: Option<String>,
) -> Option<RouteConstraintViolation> {
    match tag {
        None => None,
        Some(job_tag) => if entries.contains_key(key) {
            match entries[key] {
                Some(route_tag) => if job_tag@ == route_tag@ {
                    None
                } else {
                    Some(RouteConstraintViolation { code })
                },
                None => None,
            }
        } else {
            None
        },
    }
}

/// The compatibility tag of a job, if it has one.
pub fn get_job_compatibility(job: &Job) -> (r: Option<&String>)
    ensures
        match r {
            Some(tag) => job.dimens.compatibility == Some(*tag),
            None => job.dimens.compatibility is None,
        },
{
    job.dimens.compatibility.as_ref()
}

/// The compatibility tag of a route: that of the first job of its tour that has one.
pub fn get_route_compatibility(route_ctx: &RouteContext) -> (r: Option<String>)
    ensures
        r == route_compatibility(route_ctx.jobs@),
{
    let mut i: usize = 0;
    while i < route_ctx.jobs.len()
        invariant
            i <= route_ctx.jobs@.len(),
            route_compatibility(route_ctx.jobs@) == first_tag(route_ctx.jobs@, i as int),
        decreases route_ctx.jobs@.len() - i,
    {
        let found = clone_tag(get_job_compatibility(&route_ctx.jobs[i]));
        if found.is_some() {
            return found;
        }
        i = i + 1;
    }
    None
}

fn same_text(first: &String, second: &String) -> (r: bool)
    ensures
        r == (first@ == second@),
{
    *first == *second
}

fn clone_tag(tag: Option<&String>) -> (r: Option<String>)
    ensures
        match tag {
            Some(tag) => r == Some(*tag),
            None => r is None,
        },
{
    match tag {
        Some(tag) => Some(tag.clone()),
        None => None,
    }
}

impl CompatibilityHardRouteConstraint {
    /// Tells whether the job may go into the route: it may not where the
    /// route has a tag and the job has another one.
    pub fn evaluate_job(&self, route_ctx: &RouteContext, job: &Job) -> (r: Option<
        RouteConstraintViolation,
    >)
        ensures
            r == violation_of(self.code, route_ctx.state@, self.state_key, job.dimens.compatibility),
    {
        match get_job_compatibility(job) {
            None => None,
            Some(job_compat) => match route_ctx.state.get_route_state(self.state_key) {
                None => None,
                Some(entry) => match entry {
                    None => None,
                    Some(route_compat) => {
                        if same_text(job_compat, route_compat) {
                            None
                        } else {
                            Some(RouteConstraintViolation { code: self.code })
                        }
                    },
                },
            },
        }
    }
}

impl CompatibilityModule {
    /// The code that a violation is reported with.
    pub closed spec fn code(&self) -> i32 {
        self.code
    }

    /// The key under which the module keeps the tag of a route.
    pub closed spec fn state_key(&self) -> i32 {
        self.state_key
    }

    /// The constraints of the module.
    pub closed spec fn constraints(&self) -> Seq<ConstraintVariant> {
        self.constraints@
    }

    /// The state keys that the module owns.
    pub closed spec fn owned_state_keys(&self) -> Seq<i32> {
        self.state_keys@
    }

    /// The dimension keys that the module reads.
    pub closed spec fn owned_dimen_keys(&self) -> Seq<i32> {
        self.dimen_keys@
    }

    /// What every module satisfies: it has the one constraint, with its
    /// code and key, it owns its state key, and it reads the tag's dimension.
    pub open spec fn wf(&self) -> bool {
        &&& self.constraints() == seq![
            ConstraintVariant::HardRoute(
                CompatibilityHardRouteConstraint { code: self.code(), state_key: self.state_key() },
            ),
        ]
        &&& self.owned_state_keys() == seq![self.state_key()]
        &&& self.owned_dimen_keys() == seq![COMPATIBILITY_DIMEN_KEY]
    }

    /// Creates a new instance of `CompatibilityModule`.
    pub fn new(code: i32, state_key: i32) -> (r: Self)
        ensures
            r.wf(),
            r.code() == code,
            r.state_key() == state_key,
    {
        let mut constraints: Vec<ConstraintVariant> = Vec::new();
        constraints.push(
            ConstraintVariant::HardRoute(CompatibilityHardRouteConstraint { code, state_key }),
        );
        let mut state_keys: Vec<i32> = Vec::new();
        state_keys.push(state_key);
        let mut dimen_keys: Vec<i32> = Vec::new();
        dimen_keys.push(COMPATIBILITY_DIMEN_KEY);
        proof {
            assert(constraints@ =~= seq![
                ConstraintVariant::HardRoute(CompatibilityHardRouteConstraint { code, state_key }),
            ]);
            assert(state_keys@ =~= seq![state_key]);
            assert(dimen_keys@ =~= seq![COMPATIBILITY_DIMEN_KEY]);
        }
        CompatibilityModule { code, constraints, state_key, state_keys, dimen_keys }
    }

    /// Notes the tag of the route's tour in the route's state.
    pub fn accept_route_state(&self, ctx: &mut RouteContext)
        ensures
            final(ctx).actor == old(ctx).actor,
            final(ctx).jobs == old(ctx).jobs,
            final(ctx).state@ == accepted_state(
                old(ctx).state@,
                self.state_key(),
                route_compatibility(old(ctx).jobs@),
            ),
    {
        let new_comp = get_route_compatibility(ctx);
        let has_current = ctx.state.get_route_state(self.state_key).is_some();
        match new_comp {
            None => {
                if has_current {
                    ctx.state.put_route_state(self.state_key, None);
                }
            },
            Some(tag) => {
                ctx.state.put_route_state(self.state_key, Some(tag));
            },
        }
    }

    /// After a job went into a route: notes the route's tag, if the job
    /// has a tag. For a job without a tag nothing changes, and the index
    /// of the route is not looked at.
    pub fn accept_insertion(&self, solution_ctx: &mut SolutionContext, route_index: usize, job: &Job)
        requires
            job.dimens.compatibility is Some ==> route_index < old(solution_ctx).routes@.len(),
        ensures
            job.dimens.compatibility is None ==> *final(solution_ctx) == *old(solution_ctx),
            final(solution_ctx).required == old(solution_ctx).required,
            final(solution_ctx).ignored == old(solution_ctx).ignored,
            final(solution_ctx).locked == old(solution_ctx).locked,
            final(solution_ctx).registry == old(solution_ctx).registry,
            final(solution_ctx).job_bag() == old(solution_ctx).job_bag(),
            final(solution_ctx).actor_bag() == old(solution_ctx).actor_bag(),
            final(solution_ctx).routes@.len() == old(solution_ctx).routes@.len(),
            forall|i: int|
                0 <= i < old(solution_ctx).routes@.len() && i != route_index ==> final(solution_ctx).routes@[i] == old(solution_ctx).routes@[i],
            job.dimens.compatibility is Some ==> {
                &&& final(solution_ctx).routes@[route_index as int].actor == old(solution_ctx).routes@[route_index as int].actor
                &&& final(solution_ctx).routes@[route_index as int].jobs == old(solution_ctx).routes@[route_index as int].jobs
                &&& final(solution_ctx).routes@[route_index as int].state@ == accepted_state(
                    old(solution_ctx).routes@[route_index as int].state@,
                    self.state_key(),
                    route_compatibility(old(solution_ctx).routes@[route_index as int].jobs@),
                )
            },
    {
        if get_job_compatibility(job).is_some() {
            let ghost before = *solution_ctx;
            let mut route = solution_ctx.routes.remove(route_index);
            let ghost rest = solution_ctx.routes@;
            self.accept_route_state(&mut route);
            solution_ctx.routes.insert(route_index, route);
            proof {
                crate::solution::lemma_routes_bag_remove(before.routes@, route_index as int);
                crate::solution::lemma_routes_bag_insert(rest, route_index as int, route);
                assert(crate::solution::route_actors(solution_ctx.routes@)
                    =~= crate::solution::route_actors(before.routes@));
            }
        }
    }

    /// Nothing is kept for the solution as a whole.
    pub fn accept_solution_state(&self, solution_ctx: &mut SolutionContext)
        ensures
            *final(solution_ctx) == *old(solution_ctx),
    {
    }

    /// Tells whether two jobs can be merged into one: they can where both
    /// have no tag or both have the same, and then the first of them is
    /// given back; else the module's code is.
    pub fn merge(&self, source: Job, candidate: Job) -> (r: Result<Job, i32>)
        ensures
            same_tag(source.dimens.compatibility, candidate.dimens.compatibility) ==> r == Ok::<
                Job,
                i32,
            >(source),
            !same_tag(source.dimens.compatibility, candidate.dimens.compatibility) ==> r == Err::<
                Job,
                i32,
            >(self.code()),
    {
        let can_merge = match (get_job_compatibility(&source), get_job_compatibility(&candidate)) {
            (None, None) => true,
            (Some(s_compat), Some(c_compat)) => same_text(s_compat, c_compat),
            _ => false,
        };
        if can_merge {
            Ok(source)
        } else {
            Err(self.code)
        }
    }

    /// The state keys that the module owns.
    pub fn state_keys(&self) -> (r: &Vec<i32>)
        ensures
            r@ == self.owned_state_keys(),
    {
        &self.state_keys
    }

    /// The dimension keys that the module reads.
    pub fn dimen_keys(&self) -> (r: &Vec<i32>)
        ensures
            r@ == self.owned_dimen_keys(),
    {
        &self.dimen_keys
    }

    /// The constraints of the module.
    pub fn get_constraints(&self) -> (r: &Vec<ConstraintVariant>)
        ensures
            r@ == self.constraints(),
    {
        &self.constraints
    }
}

/// Whether the module kind is that of compatibility.
pub open spec fn is_compatibility_kind(kind: ConstraintModuleKind) -> bool {
    kind is Compatibility
}

/// The place of the first compatibility module of a pipeline, or the
/// pipeline's length where it has none.
pub open spec fn compatibility_place(modules: Seq<ConstraintModuleKind>) -> int
    decreases modules.len(),
{
    if modules.len() == 0 {
        0
    } else if is_compatibility_kind(modules[0]) {
        0
    } else {
        1 + compatibility_place(modules.drop_first())
    }
}

/// The place of the first compatibility module lies within the pipeline
/// or is its length, a compatibility module stands there, and none before.
pub proof fn lemma_compatibility_place(modules: Seq<ConstraintModuleKind>)
    ensures
        0 <= compatibility_place(modules) <= modules.len(),
        compatibility_place(modules) < modules.len() ==> is_compatibility_kind(
            modules[compatibility_place(modules)],
        ),
        forall|i: int|
            0 <= i < compatibility_place(modules) ==> !is_compatibility_kind(#[trigger] modules[i]),
    decreases modules.len(),
{
    if modules.len() > 0 && !is_compatibility_kind(modules[0]) {
        let rest = modules.drop_first();
        lemma_compatibility_place(rest);
        let p = compatibility_place(rest);
        assert forall|i: int| 0 <= i < 1 + p implies !is_compatibility_kind(
            #[trigger] modules[i],
        ) by {
            if i > 0 {
                assert(rest[i - 1] == modules[i]);
            }
        }
        if p < rest.len() {
            assert(rest[p] == modules[p + 1]);
        }
    }
}

impl CompatibilityModule {
    /// Creates the compatibility module that a pipeline calls for: the one
    /// of its first compatibility entry, with that entry's code and state
    /// key. There is none for a pipeline without such an entry.
    pub fn from_pipeline(constraint: &ConstraintPipeline) -> (r: Option<Self>)
        ensures
            match r {
                Some(module) => {
                    &&& compatibility_place(constraint@) < constraint@.len()
                    &&& module.wf()
                    &&& constraint@[compatibility_place(constraint@)]
                        == (ConstraintModuleKind::Compatibility {
                        code: module.code(),
                        state_key: module.state_key(),
                    })
                },
                None => forall|i: int|
                    0 <= i < constraint@.len() ==> !is_compatibility_kind(#[trigger] constraint@[i]),
            },
    {
        let mut i: usize = 0;
        while i < constraint.len()
            invariant
                i <= constraint@.len(),
                forall|k: int| 0 <= k < i ==> !is_compatibility_kind(#[trigger] constraint@[k]),
            decreases constraint@.len() - i,
        {
            match constraint.get(i) {
                Some(ConstraintModuleKind::Compatibility { code, state_key }) => {
                    proof {
                        lemma_compatibility_place(constraint@);
                        let p = compatibility_place(constraint@);
                        if p < i {
                            assert(!is_compatibility_kind(constraint@[p]));
                        }
                        if p > i {
                            assert(is_compatibility_kind(constraint@[i + 0]));
                        }
                    }
                    return Some(CompatibilityModule::new(code, state_key));
                },
                _ => {},
            }
            i = i + 1;
        }
        None
    }
}

/// Whether the jobs that have a tag all have the same.
pub open spec fn tags_agree(jobs: Seq<Job>) -> bool {
    forall|i: int, j: int|
        0 <= i < jobs.len() && 0 <= j < jobs.len() ==> match (
            (#[trigger] jobs[i]).dimens.compatibility,
            (#[trigger] jobs[j]).dimens.compatibility,
        ) {
            (Some(a), Some(b)) => a@ == b@,
            _ => true,
        }
}

/// Whether the state holds, under the key, the tag of the tour as it is
/// now: the tag where the tour has one, and else no tag.
pub open spec fn state_is_current(
    jobs: Seq<Job>,
    entries: Map<i32, Option<String>>,
    key: i32,
) -> bool {
    match route_compatibility(jobs) {
        Some(tag) => entries.contains_key(key) && entries[key] == Some(tag),
        None => !entries.contains_key(key) || entries[key] is None,
    }
}

/// The first tag from a place on is the tag of a job behind which no
/// earlier job has a tag; there is none only where no job has one.
pub proof fn lemma_first_tag(jobs: Seq<Job>, from: int)
    requires
        0 <= from,
    ensures
        match first_tag(jobs, from) {
            Some(tag) => exists|k: int|
                from <= k < jobs.len() && (#[trigger] jobs[k]).dimens.compatibility == Some(tag)
                    && forall|m: int|
                    from <= m < k ==> (#[trigger] jobs[m]).dimens.compatibility is None,
            None => forall|k: int|
                from <= k < jobs.len() ==> (#[trigger] jobs[k]).dimens.compatibility is None,
        },
    decreases jobs.len() - from,
{
    if from < jobs.len() {
        match jobs[from].dimens.compatibility {
            Some(tag) => {
                assert(jobs[from].dimens.compatibility == Some(tag));
            },
            None => {
                lemma_first_tag(jobs, from + 1);
                match first_tag(jobs, from + 1) {
                    Some(tag) => {
                        let k = choose|k: int|
                            from + 1 <= k < jobs.len() && (
                            #[trigger] jobs[k]).dimens.compatibility == Some(tag) && forall|m: int|
                                from + 1 <= m < k ==> (
                                #[trigger] jobs[m]).dimens.compatibility is None;
                        assert(from <= k < jobs.len() && jobs[k].dimens.compatibility == Some(tag));
                        assert forall|m: int| from <= m < k implies (
                        #[trigger] jobs[m]).dimens.compatibility is None by {}
                    },
                    None => {
                        assert forall|k: int| from <= k < jobs.len() implies (
                        #[trigger] jobs[k]).dimens.compatibility is None by {}
                    },
                }
            },
        }
    }
}

/// What the module notes for a tour is current for that tour.
pub proof fn lemma_accepted_state_is_current(
    jobs: Seq<Job>,
    entries: Map<i32, Option<String>>,
    key: i32,
)
    ensures
        state_is_current(jobs, accepted_state(entries, key, route_compatibility(jobs)), key),
{
}

/// The constraint lets every job pass that the route holds already: in a
/// route whose tags agree and whose state is current, asking for any of
/// its jobs gives no violation.
pub proof fn lemma_placed_jobs_pass(
    jobs: Seq<Job>,
    entries: Map<i32, Option<String>>,
    key: i32,
    code: i32,
    index: int,
)
    requires
        tags_agree(jobs),
        state_is_current(jobs, entries, key),
        0 <= index < jobs.len(),
    ensures
        violation_of(code, entries, key, jobs[index].dimens.compatibility) is None,
{
    lemma_first_tag(jobs, 0);
    match jobs[index].dimens.compatibility {
        Some(job_tag) => {
            match route_compatibility(jobs) {
                Some(tag) => {
                    let k = choose|k: int|
                        0 <= k < jobs.len() && (#[trigger] jobs[k]).dimens.compatibility == Some(tag)
                            && forall|m: int|
                            0 <= m < k ==> (#[trigger] jobs[m]).dimens.compatibility is None;
                    assert(jobs[k].dimens.compatibility == Some(tag));
                    assert(jobs[index].dimens.compatibility == Some(job_tag));
                },
                None => {
                    assert(jobs[index].dimens.compatibility is None);
                },
            }
        },
        None => {},
    }
}

/// A job that the constraint lets pass can go into the route, at any
/// position: the tags of the route still agree afterwards.
pub proof fn lemma_passed_job_agrees(
    jobs: Seq<Job>,
    entries: Map<i32, Option<String>>,
    key: i32,
    code: i32,
    job: Job,
    position: int,
)
    requires
        tags_agree(jobs),
        state_is_current(jobs, entries, key),
        0 <= position <= jobs.len(),
        violation_of(code, entries, key, job.dimens.compatibility) is None,
    ensures
        tags_agree(jobs.insert(position, job)),
{
    lemma_first_tag(jobs, 0);
    let more = jobs.insert(position, job);
    assert forall|i: int, j: int| 0 <= i < more.len() && 0 <= j < more.len() implies match (
        (#[trigger] more[i]).dimens.compatibility,
        (#[trigger] more[j]).dimens.compatibility,
    ) {
        (Some(a), Some(b)) => a@ == b@,
        _ => true,
    } by {
        let oi = if i < position {
            i
        } else {
            i - 1
        };
        let oj = if j < position {
            j
        } else {
            j - 1
        };
        if i != position {
            assert(more[i] == jobs[oi]);
        }
        if j != position {
            assert(more[j] == jobs[oj]);
        }
        if i != position && j != position {
            assert(match (jobs[oi].dimens.compatibility, jobs[oj].dimens.compatibility) {
                (Some(a), Some(b)) => a@ == b@,
                _ => true,
            });
        } else if i == position && j == position {
        } else {
            let other = if i == position {
                oj
            } else {
                oi
            };
            match (job.dimens.compatibility, jobs[other].dimens.compatibility) {
                (Some(job_tag), Some(other_tag)) => {
                    match route_compatibility(jobs) {
                        Some(tag) => {
                            let k = choose|k: int|
                                0 <= k < jobs.len() && (
                                #[trigger] jobs[k]).dimens.compatibility == Some(tag) && forall|
                                    m: int,
                                |
                                    0 <= m < k ==> (
                                    #[trigger] jobs[m]).dimens.compatibility is None;
                            assert(jobs[k].dimens.compatibility == Some(tag));
                            assert(jobs[other].dimens.compatibility == Some(other_tag));
                            assert(tag@ == other_tag@);
                            assert(job_tag@ == tag@);
                        },
                        None => {
                            assert(jobs[other].dimens.compatibility is None);
                        },
                    }
                },
                _ => {},
            }
        }
    }
}

/// A job that the constraint turns away cannot go into the route: at any
/// position, the tags of the route would not agree.
pub proof fn lemma_refused_job_disagrees(
    jobs: Seq<Job>,
    entries: Map<i32, Option<String>>,
    key: i32,
    code: i32,
    job: Job,
    position: int,
)
    requires
        state_is_current(jobs, entries, key),
        0 <= position <= jobs.len(),
        violation_of(code, entries, key, job.dimens.compatibility) is Some,
    ensures
        !tags_agree(jobs.insert(position, job)),
{
    lemma_first_tag(jobs, 0);
    let more = jobs.insert(position, job);
    match route_compatibility(jobs) {
        Some(tag) => {
            let k = choose|k: int|
                0 <= k < jobs.len() && (#[trigger] jobs[k]).dimens.compatibility == Some(tag)
                    && forall|m: int|
                    0 <= m < k ==> (#[trigger] jobs[m]).dimens.compatibility is None;
            let at = if k < position {
                k
            } else {
                k + 1
            };
            assert(more[at] == jobs[k]);
            assert(more[position] == job);
            if tags_agree(more) {
                assert(match (more[position].dimens.compatibility, more[at].dimens.compatibility) {
                    (Some(a), Some(b)) => a@ == b@,
                    _ => true,
                });
            }
        },
        None => {},
    }
}

/// Whether the tags of the route's jobs agree and the route's state holds,
/// under the key, the tag of the tour as it is.
pub open spec fn route_is_compatible(route: RouteContext, key: i32) -> bool {
    tags_agree(route.jobs@) && state_is_current(route.jobs@, route.state@, key)
}

/// Whether each of the routes is compatible.
pub open spec fn routes_are_compatible(routes: Seq<RouteContext>, key: i32) -> bool {
    forall|i: int| 0 <= i < routes.len() ==> route_is_compatible(#[trigger] routes[i], key)
}

/// In compatible routes the constraint lets every job pass where it
/// stands: asking it for any job of any route gives no violation.
pub proof fn lemma_compatible_routes_pass(
    routes: Seq<RouteContext>,
    key: i32,
    code: i32,
    route: int,
    index: int,
)
    requires
        routes_are_compatible(routes, key),
        0 <= route < routes.len(),
        0 <= index < routes[route].jobs@.len(),
    ensures
        violation_of(code, routes[route].state@, key, routes[route].jobs@[index].dimens.compatibility)
            is None,
{
    assert(route_is_compatible(routes[route], key));
    lemma_placed_jobs_pass(routes[route].jobs@, routes[route].state@, key, code, index);
}

/// A route without jobs and without state is compatible: so is every
/// route when it is opened.
pub proof fn lemma_empty_route_is_compatible(route: RouteContext, key: i32)
    requires
        route.jobs@.len() == 0,
        route.state@ == crate::state::no_entries(),
    ensures
        route_is_compatible(route, key),
{
}

impl CompatibilityModule {
    /// Moves a waiting job into a route, to the given position of its
    /// tour, if the constraint lets it pass, and notes the route's tag;
    /// else nothing changes, and the violation is given. Compatible
    /// routes stay compatible.
    pub fn insert_job(
        &self,
        solution_ctx: &mut SolutionContext,
        required_index: usize,
        route_index: usize,
        position: usize,
    ) -> (r: Option<RouteConstraintViolation>)
        requires
            required_index < old(solution_ctx).required@.len(),
            route_index < old(solution_ctx).routes@.len(),
            position <= old(solution_ctx).routes@[route_index as int].jobs@.len(),
            routes_are_compatible(old(solution_ctx).routes@, self.state_key()),
        ensures
            r == violation_of(
                self.code(),
                old(solution_ctx).routes@[route_index as int].state@,
                self.state_key(),
                old(solution_ctx).required@[required_index as int].dimens.compatibility,
            ),
            r is Some ==> *final(solution_ctx) == *old(solution_ctx),
            routes_are_compatible(final(solution_ctx).routes@, self.state_key()),
            final(solution_ctx).job_bag() == old(solution_ctx).job_bag(),
            final(solution_ctx).actor_bag() == old(solution_ctx).actor_bag(),
            final(solution_ctx).ignored == old(solution_ctx).ignored,
            final(solution_ctx).locked == old(solution_ctx).locked,
            final(solution_ctx).registry == old(solution_ctx).registry,
            final(solution_ctx).routes@.len() == old(solution_ctx).routes@.len(),
            r is None ==> {
                &&& final(solution_ctx).required@ == old(solution_ctx).required@.remove(
                    required_index as int,
                )
                &&& forall|i: int|
                    0 <= i < old(solution_ctx).routes@.len() && i != route_index ==> final(solution_ctx).routes@[i] == old(solution_ctx).routes@[i]
                &&& final(solution_ctx).routes@[route_index as int].actor == old(solution_ctx).routes@[route_index as int].actor
                &&& final(solution_ctx).routes@[route_index as int].jobs@ == old(solution_ctx).routes@[route_index as int].jobs@.insert(
                    position as int,
                    old(solution_ctx).required@[required_index as int],
                )
            },
    {
        let check = CompatibilityHardRouteConstraint { code: self.code, state_key: self.state_key };
        let violation = check.evaluate_job(
            &solution_ctx.routes[route_index],
            &solution_ctx.required[required_index],
        );
        if violation.is_some() {
            return violation;
        }
        let ghost before = *solution_ctx;
        let ghost key = self.state_key;
        solution_ctx.insert_job(required_index, route_index, position);
        let ghost placed = *solution_ctx;
        let mut route = solution_ctx.routes.remove(route_index);
        let ghost rest = solution_ctx.routes@;
        let ghost jobs = route.jobs@;
        self.accept_route_state(&mut route);
        solution_ctx.routes.insert(route_index, route);
        proof {
            crate::solution::lemma_routes_bag_remove(placed.routes@, route_index as int);
            crate::solution::lemma_routes_bag_insert(rest, route_index as int, route);
            assert(crate::solution::route_actors(solution_ctx.routes@)
                =~= crate::solution::route_actors(placed.routes@));
            assert(route_is_compatible(before.routes@[route_index as int], key));
            lemma_passed_job_agrees(
                before.routes@[route_index as int].jobs@,
                before.routes@[route_index as int].state@,
                key,
                self.code,
                before.required@[required_index as int],
                position as int,
            );
            lemma_accepted_state_is_current(jobs, placed.routes@[route_index as int].state@, key);
            assert forall|i: int| 0 <= i < solution_ctx.routes@.len() implies route_is_compatible(
                #[trigger] solution_ctx.routes@[i],
                key,
            ) by {
                if i != route_index {
                    assert(solution_ctx.routes@[i] == placed.routes@[i]);
                    assert(placed.routes@[i] == before.routes@[i]);
                    assert(route_is_compatible(before.routes@[i], key));
                }
            }
        }
        None
    }
}

} // verus!
