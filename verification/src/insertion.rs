//! Insertion results and their selection.
//!
//! A cost is a double, handled by its bit pattern.

use crate::comparison::{float_less, is_less, is_nan};
use vstd::prelude::*;

verus! {

/// Which positions of a tour are tried.
#[derive(Clone, Copy, Debug, PartialEq, Eq, Structural)]
pub enum InsertionPosition {
    /// Every position.
    Any,
    /// The position with the given index only.
    Concrete(usize),
}

/// One of two.
#[derive(Clone, Copy, Debug, PartialEq, Eq, Structural)]
pub enum Either {
    /// The first.
    Left,
    /// The second.
    Right,
}

/// A job can be inserted.
#[derive(Clone, Copy, Debug, PartialEq, Eq, Structural)]
pub struct InsertionSuccess {
    /// What the insertion adds to the cost.
    pub cost: u64,
    /// The job, by its identifier.
    pub job: u64,
    /// The route, by its index among the candidates.
    pub route: usize,
    /// The position in the route's tour.
    pub position: usize,
}

/// A job cannot be inserted.
#[derive(Clone, Copy, Debug, PartialEq, Eq, Structural)]
pub struct InsertionFailure {
    /// The code of the violated constraint, or -1 where nothing was tried.
    pub constraint: i32,
    /// Whether the route admits no later position either.
    pub stopped: bool,
}

/// What trying to insert a job gives.
#[derive(Clone, Copy, Debug, PartialEq, Eq, Structural)]
pub enum InsertionResult {
    /// The job can be inserted.
    Success(InsertionSuccess),
    /// The job cannot be inserted.
    Failure(InsertionFailure),
}

/// The code of a failure where no constraint was violated.
pub const NO_CONSTRAINT: i32 = -1;

/// The failure that stands for "nothing was tried".
pub open spec fn no_result() -> InsertionResult {
    InsertionResult::Failure(InsertionFailure { constraint: NO_CONSTRAINT, stopped: false })
}

/// The better of two results: a success beats a failure; of two
/// successes the second wins only with a strictly lower cost; of two
/// failures the second wins only where it was stopped.
pub open spec fn best_of(left: InsertionResult, right: InsertionResult) -> InsertionResult {
    match (left, right) {
        (InsertionResult::Success(_), InsertionResult::Failure(_)) => left,
        (InsertionResult::Failure(_), InsertionResult::Success(_)) => right,
        (InsertionResult::Success(l), InsertionResult::Success(r)) => if float_less(
            r.cost,
            l.cost,
        ) {
            right
        } else {
            left
        },
        (InsertionResult::Failure(_), InsertionResult::Failure(r)) => if r.stopped {
            right
        } else {
            left
        },
    }
}

/// The side of the lower cost: the left one only where its cost is strictly lower.
pub open spec fn cheaper_side(left: u64, right: u64) -> Either {
    if float_less(left, right) {
        Either::Left
    } else {
        Either::Right
    }
}

impl InsertionResult {
    /// Creates the failure that stands for "nothing was tried".
    pub fn make_failure() -> (r: Self)
        ensures
            r == no_result(),
    {
        InsertionResult::Failure(InsertionFailure { constraint: NO_CONSTRAINT, stopped: false })
    }

    /// Creates a failure with the code of the violated constraint.
    pub fn make_failure_with_code(constraint: i32, stopped: bool) -> (r: Self)
        ensures
            r == InsertionResult::Failure(InsertionFailure { constraint, stopped }),
    {
        InsertionResult::Failure(InsertionFailure { constraint, stopped })
    }

    /// Creates a success.
    pub fn make_success(cost: u64, job: u64, route: usize, position: usize) -> (r: Self)
        ensures
            r == InsertionResult::Success(InsertionSuccess { cost, job, route, position }),
    {
        InsertionResult::Success(InsertionSuccess { cost, job, route, position })
    }

    /// Chooses the better of two results.
    pub fn choose_best_result(left: Self, right: Self) -> (r: Self)
        ensures
            r == best_of(left, right),
    {
        match (left, right) {
            (InsertionResult::Success(_), InsertionResult::Failure(_)) => left,
            (InsertionResult::Failure(_), InsertionResult::Success(_)) => right,
            (InsertionResult::Success(l), InsertionResult::Success(r)) => {
                if is_less(r.cost, l.cost) {
                    right
                } else {
                    left
                }
            },
            (InsertionResult::Failure(_), InsertionResult::Failure(r)) => {
                if r.stopped {
                    right
                } else {
                    left
                }
            },
        }
    }
}

/// Selects one of two costs: the left one only where it is strictly lower.
pub fn select_cost(left: u64, right: u64) -> (r: Either)
    ensures
        r == cheaper_side(left, right),
{
    if is_less(left, right) {
        Either::Left
    } else {
        Either::Right
    }
}

/// Selects one insertion result from two to promote as best, and one of two costs.
pub trait ResultSelector {
    /// Whether `out` may be selected from the two results. A selector may
    /// say more of itself than that it selects one of the two.
    open spec fn may_select(
        &self,
        left: InsertionResult,
        right: InsertionResult,
        out: InsertionResult,
    ) -> bool {
        out == left || out == right
    }

    /// Selects one insertion result from two to promote as best.
    fn select_insertion(&self, left: InsertionResult, right: InsertionResult) -> (r:
        InsertionResult)
        ensures
            self.may_select(left, right, r),
    ;

    /// Whether `out` may be selected for the two costs. A selector may
    /// say of itself which side it selects.
    open spec fn may_prefer(&self, left: u64, right: u64, out: Either) -> bool {
        true
    }

    /// Selects one of two costs.
    fn select_cost(&self, left: u64, right: u64) -> (r: Either)
        ensures
            self.may_prefer(left, right, r),
    ;
}

/// Selects the best result.
pub struct BestResultSelector {}

impl BestResultSelector {
    /// Creates the selector.
    pub fn new() -> Self {
        BestResultSelector {  }
    }
}

impl ResultSelector for BestResultSelector {
    open spec fn may_select(
        &self,
        left: InsertionResult,
        right: InsertionResult,
        out: InsertionResult,
    ) -> bool {
        out == best_of(left, right)
    }

    fn select_insertion(&self, left: InsertionResult, right: InsertionResult) -> (r:
        InsertionResult) {
        InsertionResult::choose_best_result(left, right)
    }

    open spec fn may_prefer(&self, left: u64, right: u64, out: Either) -> bool {
        out == cheaper_side(left, right)
    }

    fn select_cost(&self, left: u64, right: u64) -> (r: Either) {
        self::select_cost(left, right)
    }
}

/// How costs are disturbed before they are compared.
#[derive(Clone, Copy, Debug, PartialEq, Eq, Structural)]
pub struct Noise {
    /// The probability that a cost is disturbed, a double by its bit pattern.
    pub probability: u64,
    /// The least factor, a double by its bit pattern.
    pub range_start: u64,
    /// The greatest factor, a double by its bit pattern.
    pub range_end: u64,
}

/// Selects results by costs that have been disturbed.
pub struct NoiseResultSelector {
    noise: Noise,
}

/// The result that wins where the costs of two successes are replaced by
/// disturbed ones: a success beats a failure, the left success wins only
/// with a strictly lower disturbed cost, and of two failures the right one wins.
pub open spec fn noisy_best_of(
    left: InsertionResult,
    right: InsertionResult,
    left_cost: u64,
    right_cost: u64,
) -> InsertionResult {
    match (left, right) {
        (InsertionResult::Success(_), InsertionResult::Failure(_)) => left,
        (InsertionResult::Failure(_), InsertionResult::Success(_)) => right,
        (InsertionResult::Success(_), InsertionResult::Success(_)) => if float_less(
            left_cost,
            right_cost,
        ) {
            left
        } else {
            right
        },
        _ => right,
    }
}

impl NoiseResultSelector {
    /// Creates the selector.
    pub fn new(noise: Noise) -> (r: Self)
        ensures
            r.noise() == noise,
    {
        NoiseResultSelector { noise }
    }

    /// How the selector disturbs costs.
    pub closed spec fn noise(&self) -> Noise {
        self.noise
    }

    /// How the selector disturbs costs.
    pub fn get_noise(&self) -> (r: Noise)
        ensures
            r == self.noise(),
    {
        self.noise
    }

    /// Selects one of two results, given the disturbed costs of the two;
    /// they are looked at only where both results are successes.
    pub fn select_insertion(
        &self,
        left: InsertionResult,
        right: InsertionResult,
        left_cost: u64,
        right_cost: u64,
    ) -> (r: InsertionResult)
        ensures
            r == noisy_best_of(left, right, left_cost, right_cost),
    {
        match (left, right) {
            (InsertionResult::Success(_), InsertionResult::Failure(_)) => left,
            (InsertionResult::Failure(_), InsertionResult::Success(_)) => right,
            (InsertionResult::Success(_), InsertionResult::Success(_)) => {
                if is_less(left_cost, right_cost) {
                    left
                } else {
                    right
                }
            },
            _ => right,
        }
    }

    /// Selects one of two costs, given as they are after they were disturbed.
    pub fn select_cost(&self, left: u64, right: u64) -> (r: Either)
        ensures
            r == cheaper_side(left, right),
    {
        self::select_cost(left, right)
    }
}

/// What the constraints and the costs say of one position of a tour.
#[derive(Clone, Copy, Debug, PartialEq, Eq, Structural)]
pub enum PositionOutcome {
    /// The job can stand at the position, for a cost.
    Feasible { cost: u64 },
    /// A hard constraint is violated at the position; with `stopped`, no
    /// later position of the tour can succeed either.
    Violation { code: i32, stopped: bool },
}

/// What a scan over the positions of a tour has found.
pub struct Scan {
    /// The position to insert at with its cost, if one was found.
    pub best: Option<(usize, u64)>,
    /// The violation that was met last.
    pub failure: InsertionFailure,
    /// Whether a violation has ended the scan.
    pub stopped: bool,
}

/// The scan before any position.
pub open spec fn scan_start() -> Scan {
    Scan {
        best: None,
        failure: InsertionFailure { constraint: NO_CONSTRAINT, stopped: false },
        stopped: false,
    }
}

/// The scan `prev` after a feasible position, where comparing the costs gave `side`.
pub open spec fn scan_feasible(prev: Scan, position: usize, cost: u64, side: Either) -> Scan {
    Scan {
        best: if prev.best is Some && side == Either::Left {
            prev.best
        } else {
            Some((position, cost))
        },
        failure: prev.failure,
        stopped: prev.stopped,
    }
}

/// The scan `prev` after a violation.
pub open spec fn scan_violation(prev: Scan, code: i32, stopped: bool) -> Scan {
    Scan { best: prev.best, failure: InsertionFailure { constraint: code, stopped }, stopped }
}

/// Whether `next` may follow `prev` when the scan looks at a position: a
/// scan that was stopped stays as it is; a violation is noted, and stops
/// the scan where it says so; a feasible position replaces the best one
/// unless the selector prefers the cost of the best.
pub open spec fn may_step<R: ResultSelector>(
    selector: &R,
    prev: Scan,
    position: usize,
    outcome: PositionOutcome,
    next: Scan,
) -> bool {
    if prev.stopped {
        next == prev
    } else {
        match outcome {
            PositionOutcome::Violation { code, stopped } => next == scan_violation(
                prev,
                code,
                stopped,
            ),
            PositionOutcome::Feasible { cost } => match prev.best {
                Some((_, best_cost)) => exists|side: Either| #[trigger]
                    selector.may_prefer(best_cost, cost, side) && next == scan_feasible(
                        prev,
                        position,
                        cost,
                        side,
                    ),
                None => next == scan_feasible(prev, position, cost, Either::Right),
            },
        }
    }
}

/// Whether `out` may be the scan after the first `n` positions.
pub open spec fn may_scan<R: ResultSelector>(
    selector: &R,
    outcomes: Seq<PositionOutcome>,
    n: nat,
    out: Scan,
) -> bool
    decreases n,
{
    if n == 0 || n > outcomes.len() || n > usize::MAX {
        out == scan_start()
    } else {
        exists|prev: Scan|
            may_scan(selector, outcomes, (n - 1) as nat, prev) && #[trigger] may_step(
                selector,
                prev,
                (n - 1) as usize,
                outcomes[n - 1],
                out,
            )
    }
}

/// The result that a scan stands for.
pub open spec fn scan_result(scan: Scan, job: u64, route: usize) -> InsertionResult {
    match scan.best {
        Some((position, cost)) => InsertionResult::Success(
            InsertionSuccess { cost, job, route, position },
        ),
        None => InsertionResult::Failure(scan.failure),
    }
}

/// The result that one position alone stands for.
pub open spec fn outcome_result(
    outcome: PositionOutcome,
    job: u64,
    route: usize,
    position: usize,
) -> InsertionResult {
    match outcome {
        PositionOutcome::Feasible { cost } => InsertionResult::Success(
            InsertionSuccess { cost, job, route, position },
        ),
        PositionOutcome::Violation { code, stopped } => InsertionResult::Failure(
            InsertionFailure { constraint: code, stopped },
        ),
    }
}

/// Whether `out` may be what trying a job in a route gives: under `Any`
/// the result of a scan over all positions, under `Concrete` the result
/// of the one position, or "nothing was tried" where the tour has no such position.
pub open spec fn may_try<R: ResultSelector>(
    selector: &R,
    outcomes: Seq<PositionOutcome>,
    job: u64,
    route: usize,
    policy: InsertionPosition,
    out: InsertionResult,
) -> bool {
    match policy {
        InsertionPosition::Any => exists|scan: Scan| #[trigger]
            may_scan(selector, outcomes, outcomes.len(), scan) && out == scan_result(
                scan,
                job,
                route,
            ),
        InsertionPosition::Concrete(index) => if index < outcomes.len() {
            out == outcome_result(outcomes[index as int], job, route, index)
        } else {
            out == no_result()
        },
    }
}

/// Whether `out` may be what trying a job in a route gives, held against an alternative.
pub open spec fn may_insert<R: ResultSelector>(
    selector: &R,
    outcomes: Seq<PositionOutcome>,
    job: u64,
    route: usize,
    policy: InsertionPosition,
    alternative: InsertionResult,
    out: InsertionResult,
) -> bool {
    exists|tried: InsertionResult| #[trigger]
        may_try(selector, outcomes, job, route, policy, tried) && selector.may_select(
            alternative,
            tried,
            out,
        )
}

/// One more position, one more step of the scan.
pub proof fn lemma_scan_step<R: ResultSelector>(
    selector: &R,
    outcomes: Seq<PositionOutcome>,
    n: nat,
    prev: Scan,
    next: Scan,
)
    requires
        n < outcomes.len(),
        n < usize::MAX,
        may_scan(selector, outcomes, n, prev),
        may_step(selector, prev, n as usize, outcomes[n as int], next),
    ensures
        may_scan(selector, outcomes, n + 1, next),
{
    let m = n + 1;
    assert((m - 1) as nat == n);
    assert(may_scan(selector, outcomes, (m - 1) as nat, prev));
    assert(may_step(selector, prev, (m - 1) as usize, outcomes[m - 1], next));
    assert(may_scan(selector, outcomes, m, next));
}

/// A scan that was stopped is the scan after any further position too.
pub proof fn lemma_stopped_scan_stays<R: ResultSelector>(
    selector: &R,
    outcomes: Seq<PositionOutcome>,
    n: nat,
    m: nat,
    scan: Scan,
)
    requires
        n <= m <= outcomes.len(),
        m <= usize::MAX,
        may_scan(selector, outcomes, n, scan),
        scan.stopped,
    ensures
        may_scan(selector, outcomes, m, scan),
    decreases m,
{
    if m > n {
        let k = (m - 1) as nat;
        lemma_stopped_scan_stays(selector, outcomes, n, k, scan);
        assert(may_step(selector, scan, k as usize, outcomes[k as int], scan));
        lemma_scan_step(selector, outcomes, k, scan, scan);
    }
}

/// Scans the positions of a tour in their order, up to a violation that stops the scan.
pub fn scan_positions<R: ResultSelector>(outcomes: &Vec<PositionOutcome>, selector: &R) -> (scan:
    Scan)
    ensures
        may_scan(selector, outcomes@, outcomes@.len(), scan),
{
    let mut scan = Scan {
        best: None,
        failure: InsertionFailure { constraint: NO_CONSTRAINT, stopped: false },
        stopped: false,
    };
    let mut i: usize = 0;
    while i < outcomes.len() && !scan.stopped
        invariant
            i <= outcomes@.len(),
            may_scan(selector, outcomes@, i as nat, scan),
        decreases outcomes@.len() - i,
    {
        let ghost prev = scan;
        match outcomes[i] {
            PositionOutcome::Violation { code, stopped } => {
                scan = Scan {
                    best: scan.best,
                    failure: InsertionFailure { constraint: code, stopped },
                    stopped,
                };
            },
            PositionOutcome::Feasible { cost } => {
                let keep = match scan.best {
                    Some((_, best_cost)) => {
                        let side = selector.select_cost(best_cost, cost);
                        proof {
                            assert(selector.may_prefer(best_cost, cost, side));
                        }
                        match side {
                            Either::Left => true,
                            Either::Right => false,
                        }
                    },
                    None => false,
                };
                if !keep {
                    scan = Scan {
                        best: Some((i, cost)),
                        failure: scan.failure,
                        stopped: scan.stopped,
                    };
                }
            },
        }
        proof {
            assert(may_step(selector, prev, i, outcomes@[i as int], scan));
            lemma_scan_step(selector, outcomes@, i as nat, prev, scan);
        }
        i = i + 1;
    }
    proof {
        if i < outcomes@.len() {
            lemma_stopped_scan_stays(selector, outcomes@, i as nat, outcomes@.len(), scan);
        }
    }
    scan
}

/// Tries a job in a route and holds the result against an alternative.
pub fn evaluate_job_insertion_in_route<R: ResultSelector>(
    outcomes: &Vec<PositionOutcome>,
    job: u64,
    route: usize,
    position: InsertionPosition,
    alternative: InsertionResult,
    selector: &R,
) -> (r: InsertionResult)
    ensures
        may_insert(selector, outcomes@, job, route, position, alternative, r),
{
    let tried = match position {
        InsertionPosition::Any => {
            let scan = scan_positions(outcomes, selector);
            match scan.best {
                Some((at, cost)) => InsertionResult::make_success(cost, job, route, at),
                None => InsertionResult::Failure(scan.failure),
            }
        },
        InsertionPosition::Concrete(index) => {
            if index < outcomes.len() {
                match outcomes[index] {
                    PositionOutcome::Feasible { cost } => InsertionResult::make_success(
                        cost,
                        job,
                        route,
                        index,
                    ),
                    PositionOutcome::Violation { code, stopped } => {
                        InsertionResult::make_failure_with_code(code, stopped)
                    },
                }
            } else {
                InsertionResult::make_failure()
            }
        },
    };
    proof {
        assert(may_try(selector, outcomes@, job, route, position, tried));
    }
    selector.select_insertion(alternative, tried)
}

/// What is known of every way to insert one of some jobs into one of some routes.
pub struct Candidates {
    /// The jobs, by their identifiers.
    pub jobs: Vec<u64>,
    /// The number of routes.
    pub routes: usize,
    /// For each job and each route, the outcome at each position of the route's tour.
    pub outcomes: Vec<Vec<Vec<PositionOutcome>>>,
}

impl Candidates {
    /// Whether there are outcomes for each job and each route.
    pub open spec fn wf(&self) -> bool {
        &&& self.outcomes@.len() == self.jobs@.len()
        &&& forall|j: int|
            0 <= j < self.outcomes@.len() ==> (#[trigger] self.outcomes@[j])@.len() == self.routes
    }

    /// The outcomes at the positions of a route's tour, for a job.
    pub open spec fn at(&self, job: int, route: int) -> Seq<PositionOutcome> {
        self.outcomes@[job]@[route]@
    }

    /// Tells whether there are outcomes for each job and each route.
    pub fn is_wf(&self) -> (r: bool)
        ensures
            r == self.wf(),
    {
        if self.outcomes.len() != self.jobs.len() {
            return false;
        }
        let mut j: usize = 0;
        while j < self.outcomes.len()
            invariant
                j <= self.outcomes@.len(),
                self.outcomes@.len() == self.jobs@.len(),
                forall|k: int| 0 <= k < j ==> (#[trigger] self.outcomes@[k])@.len() == self.routes,
            decreases self.outcomes@.len() - j,
        {
            if self.outcomes[j].len() != self.routes {
                return false;
            }
            j = j + 1;
        }
        true
    }
}

/// Whether `out` may come of trying a job in the first `n` routes, one after the other.
pub open spec fn may_evaluate_job<R: ResultSelector>(
    selector: &R,
    candidates: Candidates,
    policy: InsertionPosition,
    job: int,
    n: nat,
    out: InsertionResult,
) -> bool
    decreases n,
{
    if n == 0 || n > candidates.routes {
        out == no_result()
    } else {
        exists|prev: InsertionResult|
            may_evaluate_job(selector, candidates, policy, job, (n - 1) as nat, prev)
                && #[trigger] may_insert(
                selector,
                candidates.at(job, n - 1),
                candidates.jobs@[job],
                (n - 1) as usize,
                policy,
                prev,
                out,
            )
    }
}

/// Whether `out` may come of trying the first `n` jobs in a route, one after the other.
pub open spec fn may_evaluate_route<R: ResultSelector>(
    selector: &R,
    candidates: Candidates,
    policy: InsertionPosition,
    route: int,
    n: nat,
    out: InsertionResult,
) -> bool
    decreases n,
{
    if n == 0 || n > candidates.jobs@.len() {
        out == no_result()
    } else {
        exists|prev: InsertionResult|
            may_evaluate_route(selector, candidates, policy, route, (n - 1) as nat, prev)
                && #[trigger] may_insert(
                selector,
                candidates.at(n - 1, route),
                candidates.jobs@[n - 1],
                route as usize,
                policy,
                prev,
                out,
            )
    }
}

/// Whether `out` may come of selecting among the first `n` results, one after the other.
pub open spec fn may_reduce<R: ResultSelector>(
    selector: &R,
    parts: Seq<InsertionResult>,
    n: nat,
    out: InsertionResult,
) -> bool
    decreases n,
{
    if n == 0 || n > parts.len() {
        out == no_result()
    } else {
        exists|prev: InsertionResult|
            may_reduce(selector, parts, (n - 1) as nat, prev) && #[trigger] selector.may_select(
                prev,
                parts[n - 1],
                out,
            )
    }
}

/// Whether the results may be those of each job over all routes, or of each route over all jobs.
pub open spec fn may_collect<R: ResultSelector>(
    selector: &R,
    candidates: Candidates,
    policy: InsertionPosition,
    is_fold_jobs: bool,
    parts: Seq<InsertionResult>,
) -> bool {
    if is_fold_jobs {
        &&& parts.len() == candidates.jobs@.len()
        &&& forall|k: int|
            0 <= k < parts.len() ==> may_evaluate_job(
                selector,
                candidates,
                policy,
                k,
                candidates.routes as nat,
                #[trigger] parts[k],
            )
    } else {
        &&& parts.len() == candidates.routes
        &&& forall|k: int|
            0 <= k < parts.len() ==> may_evaluate_route(
                selector,
                candidates,
                policy,
                k,
                candidates.jobs@.len(),
                #[trigger] parts[k],
            )
    }
}

/// Whether `out` may come of evaluating all jobs and routes: folded job by
/// job or route by route, and then selected among the results.
pub open spec fn may_evaluate_all<R: ResultSelector>(
    selector: &R,
    candidates: Candidates,
    policy: InsertionPosition,
    is_fold_jobs: bool,
    out: InsertionResult,
) -> bool {
    exists|parts: Seq<InsertionResult>|
        may_collect(selector, candidates, policy, is_fold_jobs, parts) && #[trigger] may_reduce(
            selector,
            parts,
            parts.len(),
            out,
        )
}

/// Selects among results, one after the other, starting from "nothing was tried".
pub fn reduce_results<R: ResultSelector>(parts: &Vec<InsertionResult>, selector: &R) -> (r:
    InsertionResult)
    ensures
        may_reduce(selector, parts@, parts@.len(), r),
{
    let mut acc = InsertionResult::make_failure();
    let mut i: usize = 0;
    while i < parts.len()
        invariant
            i <= parts@.len(),
            may_reduce(selector, parts@, i as nat, acc),
        decreases parts@.len() - i,
    {
        let ghost prev = acc;
        acc = selector.select_insertion(acc, parts[i]);
        proof {
            let m = (i + 1) as nat;
            assert((m - 1) as nat == i);
            assert(selector.may_select(prev, parts@[m - 1], acc));
        }
        i = i + 1;
    }
    acc
}

/// Evaluates job insertion in routes at the configured positions.
pub struct PositionInsertionEvaluator {
    insertion_position: InsertionPosition,
}

impl PositionInsertionEvaluator {
    /// The positions that are tried.
    pub closed spec fn policy(&self) -> InsertionPosition {
        self.insertion_position
    }

    /// Creates an evaluator that tries the given positions.
    pub fn new(insertion_position: InsertionPosition) -> (r: Self)
        ensures
            r.policy() == insertion_position,
    {
        PositionInsertionEvaluator { insertion_position }
    }

    /// Evaluates the insertion of one job into each of the routes.
    pub fn evaluate_job_in_routes<R: ResultSelector>(
        &self,
        candidates: &Candidates,
        job: usize,
        selector: &R,
    ) -> (r: InsertionResult)
        requires
            candidates.wf(),
            job < candidates.jobs@.len(),
        ensures
            may_evaluate_job(
                selector,
                *candidates,
                self.policy(),
                job as int,
                candidates.routes as nat,
                r,
            ),
    {
        let mut acc = InsertionResult::make_failure();
        let mut route: usize = 0;
        while route < candidates.routes
            invariant
                candidates.wf(),
                job < candidates.jobs@.len(),
                route <= candidates.routes,
                may_evaluate_job(
                    selector,
                    *candidates,
                    self.policy(),
                    job as int,
                    route as nat,
                    acc,
                ),
            decreases candidates.routes - route,
        {
            let ghost prev = acc;
            acc =
            evaluate_job_insertion_in_route(
                &candidates.outcomes[job][route],
                candidates.jobs[job],
                route,
                self.insertion_position,
                acc,
                selector,
            );
            proof {
                let m = (route + 1) as nat;
                assert((m - 1) as nat == route);
                assert(may_insert(
                    selector,
                    candidates.at(job as int, m - 1),
                    candidates.jobs@[job as int],
                    (m - 1) as usize,
                    self.policy(),
                    prev,
                    acc,
                ));
            }
            route = route + 1;
        }
        acc
    }

    /// Evaluates the insertion of each of the jobs into one route.
    pub fn evaluate_jobs_in_route<R: ResultSelector>(
        &self,
        candidates: &Candidates,
        route: usize,
        selector: &R,
    ) -> (r: InsertionResult)
        requires
            candidates.wf(),
            route < candidates.routes,
        ensures
            may_evaluate_route(
                selector,
                *candidates,
                self.policy(),
                route as int,
                candidates.jobs@.len(),
                r,
            ),
    {
        let mut acc = InsertionResult::make_failure();
        let mut job: usize = 0;
        while job < candidates.jobs.len()
            invariant
                candidates.wf(),
                route < candidates.routes,
                job <= candidates.jobs@.len(),
                may_evaluate_route(
                    selector,
                    *candidates,
                    self.policy(),
                    route as int,
                    job as nat,
                    acc,
                ),
            decreases candidates.jobs@.len() - job,
        {
            let ghost prev = acc;
            acc =
            evaluate_job_insertion_in_route(
                &candidates.outcomes[job][route],
                candidates.jobs[job],
                route,
                self.insertion_position,
                acc,
                selector,
            );
            proof {
                let m = (job + 1) as nat;
                assert((m - 1) as nat == job);
                assert(may_insert(
                    selector,
                    candidates.at(m - 1, route as int),
                    candidates.jobs@[m - 1],
                    route,
                    self.policy(),
                    prev,
                    acc,
                ));
            }
            job = job + 1;
        }
        acc
    }

    /// Evaluates all jobs and routes, job by job or route by route, and
    /// gives the result of each job, or of each route.
    pub fn collect_folded<R: ResultSelector>(
        &self,
        candidates: &Candidates,
        is_fold_jobs: bool,
        selector: &R,
    ) -> (r: Vec<InsertionResult>)
        requires
            candidates.wf(),
        ensures
            may_collect(selector, *candidates, self.policy(), is_fold_jobs, r@),
    {
        let mut parts: Vec<InsertionResult> = Vec::new();
        if is_fold_jobs {
            let mut job: usize = 0;
            while job < candidates.jobs.len()
                invariant
                    candidates.wf(),
                    job <= candidates.jobs@.len(),
                    parts@.len() == job,
                    forall|k: int|
                        0 <= k < job ==> may_evaluate_job(
                            selector,
                            *candidates,
                            self.policy(),
                            k,
                            candidates.routes as nat,
                            #[trigger] parts@[k],
                        ),
                decreases candidates.jobs@.len() - job,
            {
                let part = self.evaluate_job_in_routes(candidates, job, selector);
                parts.push(part);
                job = job + 1;
            }
        } else {
            let mut route: usize = 0;
            while route < candidates.routes
                invariant
                    candidates.wf(),
                    route <= candidates.routes,
                    parts@.len() == route,
                    forall|k: int|
                        0 <= k < route ==> may_evaluate_route(
                            selector,
                            *candidates,
                            self.policy(),
                            k,
                            candidates.jobs@.len(),
                            #[trigger] parts@[k],
                        ),
                decreases candidates.routes - route,
            {
                let part = self.evaluate_jobs_in_route(candidates, route, selector);
                parts.push(part);
                route = route + 1;
            }
        }
        parts
    }

    /// Evaluates all jobs and routes, job by job or route by route, and
    /// selects among the results.
    pub fn evaluate_folded<R: ResultSelector>(
        &self,
        candidates: &Candidates,
        is_fold_jobs: bool,
        selector: &R,
    ) -> (r: InsertionResult)
        requires
            candidates.wf(),
        ensures
            may_evaluate_all(selector, *candidates, self.policy(), is_fold_jobs, r),
    {
        let parts = self.collect_folded(candidates, is_fold_jobs, selector);
        reduce_results(&parts, selector)
    }
}

/// Whether the outcome is a violation that ends the scan of a tour.
pub open spec fn stops(outcome: PositionOutcome) -> bool {
    match outcome {
        PositionOutcome::Violation { code, stopped } => stopped,
        PositionOutcome::Feasible { cost } => false,
    }
}

/// Whether a scan gets as far as position `q`: no earlier position ends it.
pub open spec fn reached(outcomes: Seq<PositionOutcome>, q: int) -> bool {
    forall|k: int| 0 <= k < q && k < outcomes.len() ==> !stops(#[trigger] outcomes[k])
}

/// Whether position `q` of a tour is tried under a policy.
pub open spec fn tried(outcomes: Seq<PositionOutcome>, policy: InsertionPosition, q: int) -> bool {
    &&& 0 <= q < outcomes.len()
    &&& match policy {
        InsertionPosition::Any => reached(outcomes, q),
        InsertionPosition::Concrete(index) => q == index,
    }
}

/// Whether a tour offers position `q` for the cost `cost` under a policy.
pub open spec fn offers(
    outcomes: Seq<PositionOutcome>,
    policy: InsertionPosition,
    q: int,
    cost: u64,
) -> bool {
    tried(outcomes, policy, q) && outcomes[q] == (PositionOutcome::Feasible { cost })
}

/// Whether no feasible position has a NaN for its cost.
pub open spec fn costs_are_numbers(outcomes: Seq<PositionOutcome>) -> bool {
    forall|q: int, cost: u64|
        0 <= q < outcomes.len() && #[trigger] outcomes[q] == (PositionOutcome::Feasible { cost })
            ==> !#[trigger] is_nan(cost)
}

/// Whether a scan over the first `n` positions has found a cheapest of
/// the feasible positions that it got to, or none where there is none.
pub open spec fn is_cheapest_scan(outcomes: Seq<PositionOutcome>, n: int, scan: Scan) -> bool {
    &&& scan.stopped <==> exists|k: int| 0 <= k < n && stops(#[trigger] outcomes[k])
    &&& match scan.best {
        Some((position, cost)) => {
            &&& position < n
            &&& offers(outcomes, InsertionPosition::Any, position as int, cost)
            &&& forall|q: int, other: u64|
                q < n && #[trigger] offers(outcomes, InsertionPosition::Any, q, other)
                    ==> !float_less(other, cost)
        },
        None => forall|q: int, other: u64|
            q < n ==> !#[trigger] offers(outcomes, InsertionPosition::Any, q, other),
    }
}

/// With the selector of the best result, a scan finds a cheapest of the
/// feasible positions that it gets to, as long as the costs are numbers.
pub proof fn lemma_best_scan(
    selector: &BestResultSelector,
    outcomes: Seq<PositionOutcome>,
    n: nat,
    scan: Scan,
)
    requires
        n <= outcomes.len() <= usize::MAX,
        costs_are_numbers(outcomes),
        may_scan(selector, outcomes, n, scan),
    ensures
        is_cheapest_scan(outcomes, n as int, scan),
    decreases n,
{
    if n == 0 {
    } else {
        let k = (n - 1) as nat;
        let prev = choose|prev: Scan|
            may_scan(selector, outcomes, k, prev) && #[trigger] may_step(
                selector,
                prev,
                k as usize,
                outcomes[k as int],
                scan,
            );
        lemma_best_scan(selector, outcomes, k, prev);
        if prev.stopped {
            let w = choose|w: int| 0 <= w < k && stops(#[trigger] outcomes[w]);
            assert(!reached(outcomes, k as int));
        } else {
            assert(reached(outcomes, k as int)) by {
                assert forall|i: int| 0 <= i < k && i < outcomes.len() implies !stops(
                    #[trigger] outcomes[i],
                ) by {}
            }
            match outcomes[k as int] {
                PositionOutcome::Violation { code, stopped } => {
                    if stopped {
                        assert(stops(outcomes[k as int]));
                    }
                },
                PositionOutcome::Feasible { cost } => {
                    assert(!is_nan(cost));
                    assert(offers(outcomes, InsertionPosition::Any, k as int, cost));
                    match prev.best {
                        Some((_, best_cost)) => {
                            assert(!is_nan(best_cost));
                        },
                        None => {},
                    }
                },
            }
        }
    }
}

/// Whether the candidates hold a job with the index `job` and a route with the index `route`.
pub open spec fn in_table(candidates: Candidates, job: int, route: int) -> bool {
    0 <= job < candidates.jobs@.len() && 0 <= route < candidates.routes
}

/// Whether no feasible position of any job in any route has a NaN for its cost.
pub open spec fn all_costs_are_numbers(candidates: Candidates) -> bool {
    forall|job: int, route: int|
        in_table(candidates, job, route) ==> costs_are_numbers(
            #[trigger] candidates.at(job, route),
        )
}

/// Whether a result is a cheapest of what the jobs and routes of a region
/// offer: a success names a job, a route and a position of the region
/// with their cost, and nothing in the region is offered for less; a
/// failure says that the region offers nothing.
pub open spec fn is_cheapest_in(
    candidates: Candidates,
    policy: InsertionPosition,
    region: spec_fn(int, int) -> bool,
    out: InsertionResult,
) -> bool {
    match out {
        InsertionResult::Success(s) => {
            &&& exists|job: int|
                in_table(candidates, job, s.route as int) && region(job, s.route as int)
                    && candidates.jobs@[job] == s.job && #[trigger] offers(
                    candidates.at(job, s.route as int),
                    policy,
                    s.position as int,
                    s.cost,
                )
            &&& forall|job: int, route: int, q: int, cost: u64|
                in_table(candidates, job, route) && region(job, route) && #[trigger] offers(
                    candidates.at(job, route),
                    policy,
                    q,
                    cost,
                ) ==> !float_less(cost, s.cost)
        },
        InsertionResult::Failure(_) => forall|job: int, route: int, q: int, cost: u64|
            in_table(candidates, job, route) && region(job, route) ==> !#[trigger] offers(
                candidates.at(job, route),
                policy,
                q,
                cost,
            ),
    }
}

/// The region of one job and one route.
pub open spec fn one_cell(job: int, route: int) -> spec_fn(int, int) -> bool {
    |j: int, r: int| j == job && r == route
}

/// The region of one job and the first `n` routes.
pub open spec fn job_region(job: int, n: int) -> spec_fn(int, int) -> bool {
    |j: int, r: int| j == job && r < n
}

/// The region of the first `n` jobs and one route.
pub open spec fn route_region(route: int, n: int) -> spec_fn(int, int) -> bool {
    |j: int, r: int| j < n && r == route
}

/// The region of the first `n` jobs and all routes, or of all jobs and the first `n` routes.
pub open spec fn folded_region(is_fold_jobs: bool, n: int) -> spec_fn(int, int) -> bool {
    |j: int, r: int|
        if is_fold_jobs {
            j < n
        } else {
            r < n
        }
}

/// The region of all jobs and all routes.
pub open spec fn whole_region() -> spec_fn(int, int) -> bool {
    |j: int, r: int| true
}

/// With the selector of the best result, trying a job in a route gives a
/// cheapest of what the route offers the job.
pub proof fn lemma_best_try(
    selector: &BestResultSelector,
    candidates: Candidates,
    policy: InsertionPosition,
    job: int,
    route: int,
    out: InsertionResult,
)
    requires
        candidates.wf(),
        in_table(candidates, job, route),
        all_costs_are_numbers(candidates),
        may_try(
            selector,
            candidates.at(job, route),
            candidates.jobs@[job],
            route as usize,
            policy,
            out,
        ),
    ensures
        is_cheapest_in(candidates, policy, one_cell(job, route), out),
{
    let outcomes = candidates.at(job, route);
    let region = one_cell(job, route);
    assert(costs_are_numbers(outcomes));
    assert(outcomes.len() == candidates.outcomes@[job]@[route].len());
    match policy {
        InsertionPosition::Any => {
            let scan = choose|scan: Scan| #[trigger]
                may_scan(selector, outcomes, outcomes.len(), scan) && out == scan_result(
                    scan,
                    candidates.jobs@[job],
                    route as usize,
                );
            lemma_best_scan(selector, outcomes, outcomes.len(), scan);
            match out {
                InsertionResult::Success(s) => {
                    assert(s.route as int == route);
                    assert(region(job, s.route as int));
                    assert(offers(
                        candidates.at(job, s.route as int),
                        policy,
                        s.position as int,
                        s.cost,
                    ));
                },
                InsertionResult::Failure(_) => {},
            }
        },
        InsertionPosition::Concrete(index) => {
            if index < outcomes.len() {
                match out {
                    InsertionResult::Success(s) => {
                        assert(s.route as int == route);
                        assert(region(job, s.route as int));
                        assert(offers(
                            candidates.at(job, s.route as int),
                            policy,
                            s.position as int,
                            s.cost,
                        ));
                        assert(!is_nan(s.cost));
                    },
                    InsertionResult::Failure(_) => {},
                }
            }
        },
    }
}

/// The better of a cheapest of one region and a cheapest of another is a
/// cheapest of the two regions together.
pub proof fn lemma_best_of_cheapest(
    candidates: Candidates,
    policy: InsertionPosition,
    first: spec_fn(int, int) -> bool,
    second: spec_fn(int, int) -> bool,
    both: spec_fn(int, int) -> bool,
    left: InsertionResult,
    right: InsertionResult,
)
    requires
        all_costs_are_numbers(candidates),
        is_cheapest_in(candidates, policy, first, left),
        is_cheapest_in(candidates, policy, second, right),
        forall|job: int, route: int|
            in_table(candidates, job, route) ==> (#[trigger] both(job, route) <==> first(job, route)
                || second(job, route)),
    ensures
        is_cheapest_in(candidates, policy, both, best_of(left, right)),
{
    let out = best_of(left, right);
    match (left, right) {
        (InsertionResult::Success(l), InsertionResult::Success(r)) => {
            let lj = choose|job: int|
                in_table(candidates, job, l.route as int) && first(job, l.route as int)
                    && candidates.jobs@[job] == l.job && #[trigger] offers(
                    candidates.at(job, l.route as int),
                    policy,
                    l.position as int,
                    l.cost,
                );
            let rj = choose|job: int|
                in_table(candidates, job, r.route as int) && second(job, r.route as int)
                    && candidates.jobs@[job] == r.job && #[trigger] offers(
                    candidates.at(job, r.route as int),
                    policy,
                    r.position as int,
                    r.cost,
                );
            assert(both(lj, l.route as int));
            assert(both(rj, r.route as int));
            assert(costs_are_numbers(candidates.at(lj, l.route as int)));
            assert(costs_are_numbers(candidates.at(rj, r.route as int)));
            assert(!is_nan(l.cost));
            assert(!is_nan(r.cost));
            let chosen = if float_less(r.cost, l.cost) {
                r
            } else {
                l
            };
            assert forall|job: int, route: int, q: int, cost: u64|
                in_table(candidates, job, route) && both(job, route) && #[trigger] offers(
                    candidates.at(job, route),
                    policy,
                    q,
                    cost,
                ) implies !float_less(cost, chosen.cost) by {
                assert(costs_are_numbers(candidates.at(job, route)));
                assert(!is_nan(cost));
                if first(job, route) {
                    assert(!float_less(cost, l.cost));
                } else {
                    assert(second(job, route));
                    assert(!float_less(cost, r.cost));
                }
            }
        },
        (InsertionResult::Success(l), InsertionResult::Failure(_)) => {
            let lj = choose|job: int|
                in_table(candidates, job, l.route as int) && first(job, l.route as int)
                    && candidates.jobs@[job] == l.job && #[trigger] offers(
                    candidates.at(job, l.route as int),
                    policy,
                    l.position as int,
                    l.cost,
                );
            assert(both(lj, l.route as int));
        },
        (InsertionResult::Failure(_), InsertionResult::Success(r)) => {
            let rj = choose|job: int|
                in_table(candidates, job, r.route as int) && second(job, r.route as int)
                    && candidates.jobs@[job] == r.job && #[trigger] offers(
                    candidates.at(job, r.route as int),
                    policy,
                    r.position as int,
                    r.cost,
                );
            assert(both(rj, r.route as int));
        },
        (InsertionResult::Failure(_), InsertionResult::Failure(_)) => {},
    }
}

/// With the selector of the best result, evaluating a job over routes
/// gives a cheapest of what these routes offer the job.
pub proof fn lemma_best_job(
    selector: &BestResultSelector,
    candidates: Candidates,
    policy: InsertionPosition,
    job: int,
    n: nat,
    out: InsertionResult,
)
    requires
        candidates.wf(),
        all_costs_are_numbers(candidates),
        0 <= job < candidates.jobs@.len(),
        n <= candidates.routes,
        may_evaluate_job(selector, candidates, policy, job, n, out),
    ensures
        is_cheapest_in(candidates, policy, job_region(job, n as int), out),
    decreases n,
{
    if n > 0 {
        let k = (n - 1) as nat;
        let prev = choose|prev: InsertionResult|
            may_evaluate_job(selector, candidates, policy, job, k, prev) && #[trigger] may_insert(
                selector,
                candidates.at(job, k as int),
                candidates.jobs@[job],
                k as usize,
                policy,
                prev,
                out,
            );
        let tried = choose|tried: InsertionResult| #[trigger]
            may_try(
                selector,
                candidates.at(job, k as int),
                candidates.jobs@[job],
                k as usize,
                policy,
                tried,
            ) && selector.may_select(prev, tried, out);
        lemma_best_job(selector, candidates, policy, job, k, prev);
        lemma_best_try(selector, candidates, policy, job, k as int, tried);
        lemma_best_of_cheapest(
            candidates,
            policy,
            job_region(job, k as int),
            one_cell(job, k as int),
            job_region(job, n as int),
            prev,
            tried,
        );
    }
}

/// With the selector of the best result, evaluating jobs in a route gives
/// a cheapest of what the route offers these jobs.
pub proof fn lemma_best_route(
    selector: &BestResultSelector,
    candidates: Candidates,
    policy: InsertionPosition,
    route: int,
    n: nat,
    out: InsertionResult,
)
    requires
        candidates.wf(),
        all_costs_are_numbers(candidates),
        0 <= route < candidates.routes,
        n <= candidates.jobs@.len(),
        may_evaluate_route(selector, candidates, policy, route, n, out),
    ensures
        is_cheapest_in(candidates, policy, route_region(route, n as int), out),
    decreases n,
{
    if n > 0 {
        let k = (n - 1) as nat;
        let prev = choose|prev: InsertionResult|
            may_evaluate_route(selector, candidates, policy, route, k, prev)
                && #[trigger] may_insert(
                selector,
                candidates.at(k as int, route),
                candidates.jobs@[k as int],
                route as usize,
                policy,
                prev,
                out,
            );
        let tried = choose|tried: InsertionResult| #[trigger]
            may_try(
                selector,
                candidates.at(k as int, route),
                candidates.jobs@[k as int],
                route as usize,
                policy,
                tried,
            ) && selector.may_select(prev, tried, out);
        lemma_best_route(selector, candidates, policy, route, k, prev);
        lemma_best_try(selector, candidates, policy, k as int, route, tried);
        lemma_best_of_cheapest(
            candidates,
            policy,
            route_region(route, k as int),
            one_cell(k as int, route),
            route_region(route, n as int),
            prev,
            tried,
        );
    }
}

/// With the selector of the best result, selecting among the results of
/// jobs, or of routes, gives a cheapest of what all of them offer.
pub proof fn lemma_best_reduce(
    selector: &BestResultSelector,
    candidates: Candidates,
    policy: InsertionPosition,
    is_fold_jobs: bool,
    parts: Seq<InsertionResult>,
    n: nat,
    out: InsertionResult,
)
    requires
        candidates.wf(),
        all_costs_are_numbers(candidates),
        may_collect(selector, candidates, policy, is_fold_jobs, parts),
        n <= parts.len(),
        may_reduce(selector, parts, n, out),
    ensures
        is_cheapest_in(candidates, policy, folded_region(is_fold_jobs, n as int), out),
    decreases n,
{
    if n > 0 {
        let k = (n - 1) as nat;
        let prev = choose|prev: InsertionResult|
            may_reduce(selector, parts, k, prev) && #[trigger] selector.may_select(
                prev,
                parts[k as int],
                out,
            );
        lemma_best_reduce(selector, candidates, policy, is_fold_jobs, parts, k, prev);
        if is_fold_jobs {
            lemma_best_job(
                selector,
                candidates,
                policy,
                k as int,
                candidates.routes as nat,
                parts[k as int],
            );
            lemma_best_of_cheapest(
                candidates,
                policy,
                folded_region(is_fold_jobs, k as int),
                job_region(k as int, candidates.routes as int),
                folded_region(is_fold_jobs, n as int),
                prev,
                parts[k as int],
            );
        } else {
            lemma_best_route(
                selector,
                candidates,
                policy,
                k as int,
                candidates.jobs@.len(),
                parts[k as int],
            );
            lemma_best_of_cheapest(
                candidates,
                policy,
                folded_region(is_fold_jobs, k as int),
                route_region(k as int, candidates.jobs@.len() as int),
                folded_region(is_fold_jobs, n as int),
                prev,
                parts[k as int],
            );
        }
    }
}

/// With the selector of the best result, and with costs that are numbers,
/// evaluating all jobs and routes gives a cheapest of what any route offers
/// any job, whether it is done job by job or route by route: a success
/// whose cost nothing undercuts, or a failure where nothing is offered.
pub proof fn lemma_best_evaluate_all(
    selector: &BestResultSelector,
    candidates: Candidates,
    policy: InsertionPosition,
    is_fold_jobs: bool,
    out: InsertionResult,
)
    requires
        candidates.wf(),
        all_costs_are_numbers(candidates),
        may_evaluate_all(selector, candidates, policy, is_fold_jobs, out),
    ensures
        is_cheapest_in(candidates, policy, whole_region(), out),
{
    let parts = choose|parts: Seq<InsertionResult>|
        may_collect(selector, candidates, policy, is_fold_jobs, parts) && #[trigger] may_reduce(
            selector,
            parts,
            parts.len(),
            out,
        );
    lemma_best_reduce(selector, candidates, policy, is_fold_jobs, parts, parts.len(), out);
    lemma_best_of_cheapest(
        candidates,
        policy,
        folded_region(is_fold_jobs, parts.len() as int),
        folded_region(is_fold_jobs, parts.len() as int),
        whole_region(),
        out,
        out,
    );
}

} // verus!
