//! From a problem definition to what the search is set up with: the
//! features that the definition uses, the constraint modules that they
//! call for, and the objective.

use crate::domain::{distinct_texts, Dimensions};
use crate::extras::{no_extras, Extras};
use vstd::prelude::*;

verus! {

/// One pickup or delivery of a job.
pub struct JobTask {
    /// The demand, one entry per dimension of capacity.
    pub demand: Option<Vec<i32>>,
}

/// A job of the plan.
pub struct ApiJob {
    /// The identifier.
    pub id: String,
    /// The pickups.
    pub pickups: Option<Vec<JobTask>>,
    /// The deliveries.
    pub deliveries: Option<Vec<JobTask>>,
    /// The skills that the vehicle must have.
    pub skills: Option<Vec<String>>,
    /// The priority: 1 is the highest, and the default.
    pub priority: Option<i32>,
    /// The compatibility tag: jobs with different tags do not share a tour.
    pub compatibility: Option<String>,
    /// The group: the jobs of one group are served in one tour.
    pub group: Option<String>,
}

/// A break of a shift.
pub struct VehicleBreak {
    /// The duration of the break in seconds.
    pub duration: u64,
}

/// A place where a vehicle can load or unload during a shift.
pub struct VehicleCargoPlace {
    /// The time spent at the place in seconds.
    pub duration: u64,
}

/// A shift of a vehicle type.
pub struct VehicleShift {
    /// The breaks.
    pub breaks: Option<Vec<VehicleBreak>>,
    /// The reloads.
    pub reloads: Option<Vec<VehicleCargoPlace>>,
}

/// A type of vehicle.
pub struct VehicleType {
    /// The capacity, one entry per dimension.
    pub capacity: Vec<i32>,
    /// The shifts.
    pub shifts: Vec<VehicleShift>,
}

/// The vehicles of a problem definition.
pub struct ApiFleet {
    /// The vehicle types.
    pub vehicles: Vec<VehicleType>,
}

/// The jobs of a problem definition.
pub struct Plan {
    /// The jobs.
    pub jobs: Vec<ApiJob>,
}

/// How priorities are weighted.
pub struct PriorityFeature {
    /// The cost of one step of priority: a double, by its bit pattern.
    pub weight_cost: u64,
}

/// The optional features.
pub struct Features {
    /// The priority feature.
    pub priority: Option<PriorityFeature>,
}

/// The configuration of a problem definition.
pub struct Config {
    /// The features.
    pub features: Option<Features>,
}

/// One goal of the objective.
#[derive(Clone, Copy, Debug, PartialEq, Eq, Structural)]
pub enum ApiObjective {
    /// As little cost as possible.
    MinimizeCost,
    /// As few tours as possible.
    MinimizeTours,
    /// As few unassigned jobs as possible.
    MinimizeUnassignedJobs,
    /// The load spread evenly over the tours.
    BalanceMaxLoad,
    /// The activities spread evenly over the tours.
    BalanceActivities,
}

/// The goals of a problem definition.
pub struct Objectives {
    /// The goals that count first.
    pub primary: Vec<ApiObjective>,
    /// The goals that decide between solutions that are equal on the primary ones.
    pub secondary: Option<Vec<ApiObjective>>,
}

/// A problem definition.
pub struct ApiProblem {
    /// The jobs.
    pub plan: Plan,
    /// The vehicles.
    pub fleet: ApiFleet,
    /// The configuration.
    pub config: Option<Config>,
    /// The goals.
    pub objectives: Option<Objectives>,
}

/// A routing matrix.
pub struct Matrix {
    /// For each pair of locations, whether a route between them was found.
    pub error_codes: Option<Vec<i32>>,
}

/// The features that a problem definition uses.
pub struct ProblemProperties {
    /// Some capacity or demand has more than one dimension.
    pub has_multi_dimen_capacity: bool,
    /// Some shift has a break.
    pub has_breaks: bool,
    /// Some job asks for skills.
    pub has_skills: bool,
    /// Some matrix marks pairs of locations as unreachable.
    pub has_unreachable_locations: bool,
    /// Some shift has a reload.
    pub has_reload: bool,
    /// The cost of one step of priority, a double by its bit pattern, where
    /// some job has a lower priority than the highest.
    pub priority: Option<u64>,
    /// Some job carries a compatibility tag.
    pub has_compatibility: bool,
    /// Some job belongs to a group.
    pub has_group: bool,
}

/// The cost of one step of priority where the definition names none: 100, as a double.
pub const DEFAULT_PRIORITY_COST: u64 = 0x4059_0000_0000_0000;

/// Whether a task's demand has more than one dimension.
pub open spec fn task_is_multi(task: JobTask) -> bool {
    task.demand matches Some(demand) && demand@.len() > 1
}

/// Whether one of the tasks has a demand of more than one dimension.
pub open spec fn tasks_are_multi(tasks: Option<Vec<JobTask>>) -> bool {
    match tasks {
        Some(list) => exists|i: int| 0 <= i < list@.len() && task_is_multi(#[trigger] list@[i]),
        None => false,
    }
}

/// Whether one of the job's pickups or deliveries has a demand of more than one dimension.
pub open spec fn job_is_multi(job: ApiJob) -> bool {
    tasks_are_multi(job.pickups) || tasks_are_multi(job.deliveries)
}

/// Whether some vehicle's capacity or some task's demand has more than one dimension.
pub open spec fn uses_multi_dimen_capacity(problem: ApiProblem) -> bool {
    ||| exists|i: int|
        0 <= i < problem.fleet.vehicles@.len() && (#[trigger] problem.fleet.vehicles@[i]).capacity@.len()
            > 1
    ||| exists|i: int| 0 <= i < problem.plan.jobs@.len() && job_is_multi(#[trigger] problem.plan.jobs@[i])
}

/// Whether the shift has at least one break.
pub open spec fn shift_has_break(shift: VehicleShift) -> bool {
    shift.breaks matches Some(breaks) && breaks@.len() > 0
}

/// Whether the shift has at least one reload.
pub open spec fn shift_has_reload(shift: VehicleShift) -> bool {
    shift.reloads matches Some(reloads) && reloads@.len() > 0
}

/// Whether one of the vehicle's shifts has a break.
pub open spec fn vehicle_has_break(vehicle: VehicleType) -> bool {
    exists|i: int| 0 <= i < vehicle.shifts@.len() && shift_has_break(#[trigger] vehicle.shifts@[i])
}

/// Whether one of the vehicle's shifts has a reload.
pub open spec fn vehicle_has_reload(vehicle: VehicleType) -> bool {
    exists|i: int| 0 <= i < vehicle.shifts@.len() && shift_has_reload(#[trigger] vehicle.shifts@[i])
}

/// Whether some shift of some vehicle has a break.
pub open spec fn uses_breaks(problem: ApiProblem) -> bool {
    exists|i: int|
        0 <= i < problem.fleet.vehicles@.len() && vehicle_has_break(
            #[trigger] problem.fleet.vehicles@[i],
        )
}

/// Whether some shift of some vehicle has a reload.
pub open spec fn uses_reload(problem: ApiProblem) -> bool {
    exists|i: int|
        0 <= i < problem.fleet.vehicles@.len() && vehicle_has_reload(
            #[trigger] problem.fleet.vehicles@[i],
        )
}

/// Whether some job asks for skills.
pub open spec fn uses_skills(problem: ApiProblem) -> bool {
    exists|i: int| 0 <= i < problem.plan.jobs@.len() && (#[trigger] problem.plan.jobs@[i]).skills is Some
}

/// Whether some matrix has error codes.
pub open spec fn uses_unreachable_locations(matrices: Seq<Matrix>) -> bool {
    exists|i: int| 0 <= i < matrices.len() && (#[trigger] matrices[i]).error_codes is Some
}

/// Whether the job has a priority below the highest.
pub open spec fn job_has_low_priority(job: ApiJob) -> bool {
    job.priority matches Some(priority) && priority > 1
}

/// Whether some job has a priority below the highest.
pub open spec fn uses_priority(problem: ApiProblem) -> bool {
    exists|i: int|
        0 <= i < problem.plan.jobs@.len() && job_has_low_priority(#[trigger] problem.plan.jobs@[i])
}

/// The cost of one step of priority that the configuration names, or the default.
pub open spec fn priority_cost(config: Option<Config>) -> u64 {
    match config {
        Some(Config { features: Some(Features { priority: Some(priority) }) }) => priority.weight_cost,
        _ => DEFAULT_PRIORITY_COST,
    }
}

/// Whether some job carries a compatibility tag.
pub open spec fn uses_compatibility(problem: ApiProblem) -> bool {
    exists|i: int|
        0 <= i < problem.plan.jobs@.len() && (#[trigger] problem.plan.jobs@[i]).compatibility is Some
}

/// Whether some job belongs to a group.
pub open spec fn uses_group(problem: ApiProblem) -> bool {
    exists|i: int| 0 <= i < problem.plan.jobs@.len() && (#[trigger] problem.plan.jobs@[i]).group is Some
}

/// The features that a problem definition with its matrices uses.
pub open spec fn properties_of(problem: ApiProblem, matrices: Seq<Matrix>) -> ProblemProperties {
    ProblemProperties {
        has_multi_dimen_capacity: uses_multi_dimen_capacity(problem),
        has_breaks: uses_breaks(problem),
        has_skills: uses_skills(problem),
        has_unreachable_locations: uses_unreachable_locations(matrices),
        has_reload: uses_reload(problem),
        priority: if uses_priority(problem) {
            Some(priority_cost(problem.config))
        } else {
            None
        },
        has_compatibility: uses_compatibility(problem),
        has_group: uses_group(problem),
    }
}

fn any_multi_demand(list: &Vec<JobTask>) -> (r: bool)
    ensures
        r == exists|i: int| 0 <= i < list@.len() && task_is_multi(#[trigger] list@[i]),
{
    let mut i: usize = 0;
    while i < list.len()
        invariant
            i <= list@.len(),
            forall|k: int| 0 <= k < i ==> !task_is_multi(#[trigger] list@[k]),
        decreases list@.len() - i,
    {
        let is_multi = match &list[i].demand {
            Some(demand) => demand.len() > 1,
            None => false,
        };
        if is_multi {
            return true;
        }
        i = i + 1;
    }
    false
}

fn any_multi_task(tasks: &Option<Vec<JobTask>>) -> (r: bool)
    ensures
        r == tasks_are_multi(*tasks),
{
    match tasks {
        Some(list) => any_multi_demand(list),
        None => false,
    }
}

fn any_multi_capacity(problem: &ApiProblem) -> (r: bool)
    ensures
        r == uses_multi_dimen_capacity(*problem),
{
    let mut i: usize = 0;
    while i < problem.fleet.vehicles.len()
        invariant
            i <= problem.fleet.vehicles@.len(),
            forall|k: int| 0 <= k < i ==> (#[trigger] problem.fleet.vehicles@[k]).capacity@.len() <= 1,
        decreases problem.fleet.vehicles@.len() - i,
    {
        if problem.fleet.vehicles[i].capacity.len() > 1 {
            return true;
        }
        i = i + 1;
    }
    let mut j: usize = 0;
    while j < problem.plan.jobs.len()
        invariant
            j <= problem.plan.jobs@.len(),
            forall|k: int| 0 <= k < problem.fleet.vehicles@.len() ==> (#[trigger] problem.fleet.vehicles@[k]).capacity@.len() <= 1,
            forall|k: int| 0 <= k < j ==> !job_is_multi(#[trigger] problem.plan.jobs@[k]),
        decreases problem.plan.jobs@.len() - j,
    {
        if any_multi_task(&problem.plan.jobs[j].pickups) || any_multi_task(&problem.plan.jobs[j].deliveries) {
            return true;
        }
        j = j + 1;
    }
    false
}

fn any_shift_with_break(vehicle: &VehicleType) -> (r: bool)
    ensures
        r == vehicle_has_break(*vehicle),
{
    let mut i: usize = 0;
    while i < vehicle.shifts.len()
        invariant
            i <= vehicle.shifts@.len(),
            forall|k: int| 0 <= k < i ==> !shift_has_break(#[trigger] vehicle.shifts@[k]),
        decreases vehicle.shifts@.len() - i,
    {
        let has_break = match &vehicle.shifts[i].breaks {
            Some(breaks) => breaks.len() > 0,
            None => false,
        };
        if has_break {
            return true;
        }
        i = i + 1;
    }
    false
}

fn any_shift_with_reload(vehicle: &VehicleType) -> (r: bool)
    ensures
        r == vehicle_has_reload(*vehicle),
{
    let mut i: usize = 0;
    while i < vehicle.shifts.len()
        invariant
            i <= vehicle.shifts@.len(),
            forall|k: int| 0 <= k < i ==> !shift_has_reload(#[trigger] vehicle.shifts@[k]),
        decreases vehicle.shifts@.len() - i,
    {
        let has_reload = match &vehicle.shifts[i].reloads {
            Some(reloads) => reloads.len() > 0,
            None => false,
        };
        if has_reload {
            return true;
        }
        i = i + 1;
    }
    false
}

fn any_break(problem: &ApiProblem) -> (r: bool)
    ensures
        r == uses_breaks(*problem),
{
    let mut i: usize = 0;
    while i < problem.fleet.vehicles.len()
        invariant
            i <= problem.fleet.vehicles@.len(),
            forall|k: int| 0 <= k < i ==> !vehicle_has_break(#[trigger] problem.fleet.vehicles@[k]),
        decreases problem.fleet.vehicles@.len() - i,
    {
        if any_shift_with_break(&problem.fleet.vehicles[i]) {
            return true;
        }
        i = i + 1;
    }
    false
}

fn any_reload(problem: &ApiProblem) -> (r: bool)
    ensures
        r == uses_reload(*problem),
{
    let mut i: usize = 0;
    while i < problem.fleet.vehicles.len()
        invariant
            i <= problem.fleet.vehicles@.len(),
            forall|k: int| 0 <= k < i ==> !vehicle_has_reload(#[trigger] problem.fleet.vehicles@[k]),
        decreases problem.fleet.vehicles@.len() - i,
    {
        if any_shift_with_reload(&problem.fleet.vehicles[i]) {
            return true;
        }
        i = i + 1;
    }
    false
}

fn any_skills(problem: &ApiProblem) -> (r: bool)
    ensures
        r == uses_skills(*problem),
{
    let mut i: usize = 0;
    while i < problem.plan.jobs.len()
        invariant
            i <= problem.plan.jobs@.len(),
            forall|k: int| 0 <= k < i ==> (#[trigger] problem.plan.jobs@[k]).skills is None,
        decreases problem.plan.jobs@.len() - i,
    {
        if problem.plan.jobs[i].skills.is_some() {
            return true;
        }
        i = i + 1;
    }
    false
}

fn any_compatibility(problem: &ApiProblem) -> (r: bool)
    ensures
        r == uses_compatibility(*problem),
{
    let mut i: usize = 0;
    while i < problem.plan.jobs.len()
        invariant
            i <= problem.plan.jobs@.len(),
            forall|k: int| 0 <= k < i ==> (#[trigger] problem.plan.jobs@[k]).compatibility is None,
        decreases problem.plan.jobs@.len() - i,
    {
        if problem.plan.jobs[i].compatibility.is_some() {
            return true;
        }
        i = i + 1;
    }
    false
}

fn any_group(problem: &ApiProblem) -> (r: bool)
    ensures
        r == uses_group(*problem),
{
    let mut i: usize = 0;
    while i < problem.plan.jobs.len()
        invariant
            i <= problem.plan.jobs@.len(),
            forall|k: int| 0 <= k < i ==> (#[trigger] problem.plan.jobs@[k]).group is None,
        decreases problem.plan.jobs@.len() - i,
    {
        if problem.plan.jobs[i].group.is_some() {
            return true;
        }
        i = i + 1;
    }
    false
}

fn any_low_priority(problem: &ApiProblem) -> (r: bool)
    ensures
        r == uses_priority(*problem),
{
    let mut i: usize = 0;
    while i < problem.plan.jobs.len()
        invariant
            i <= problem.plan.jobs@.len(),
            forall|k: int| 0 <= k < i ==> !job_has_low_priority(#[trigger] problem.plan.jobs@[k]),
        decreases problem.plan.jobs@.len() - i,
    {
        let is_low = match problem.plan.jobs[i].priority {
            Some(priority) => priority > 1,
            None => false,
        };
        if is_low {
            return true;
        }
        i = i + 1;
    }
    false
}

fn any_error_codes(matrices: &Vec<Matrix>) -> (r: bool)
    ensures
        r == uses_unreachable_locations(matrices@),
{
    let mut i: usize = 0;
    while i < matrices.len()
        invariant
            i <= matrices@.len(),
            forall|k: int| 0 <= k < i ==> (#[trigger] matrices@[k]).error_codes is None,
        decreases matrices@.len() - i,
    {
        if matrices[i].error_codes.is_some() {
            return true;
        }
        i = i + 1;
    }
    false
}

fn configured_priority_cost(config: &Option<Config>) -> (r: u64)
    ensures
        r == priority_cost(*config),
{
    match config {
        Some(config) => match &config.features {
            Some(features) => match &features.priority {
                Some(priority) => priority.weight_cost,
                None => DEFAULT_PRIORITY_COST,
            },
            None => DEFAULT_PRIORITY_COST,
        },
        None => DEFAULT_PRIORITY_COST,
    }
}

/// Finds the features that a problem definition with its matrices uses.
pub fn get_problem_properties(api_problem: &ApiProblem, matrices: &Vec<Matrix>) -> (r:
    ProblemProperties)
    ensures
        r == properties_of(*api_problem, matrices@),
{
    let has_unreachable_locations = any_error_codes(matrices);
    let has_multi_dimen_capacity = any_multi_capacity(api_problem);
    let has_breaks = any_break(api_problem);
    let has_skills = any_skills(api_problem);
    let has_reload = any_reload(api_problem);
    let priority = if any_low_priority(api_problem) {
        Some(configured_priority_cost(&api_problem.config))
    } else {
        None
    };
    let has_compatibility = any_compatibility(api_problem);
    let has_group = any_group(api_problem);
    ProblemProperties {
        has_multi_dimen_capacity,
        has_breaks,
        has_skills,
        has_unreachable_locations,
        has_reload,
        priority,
        has_compatibility,
        has_group,
    }
}

/// The code of a violated time window.
pub const TIME_CONSTRAINT_CODE: i32 = 1;

/// The code of an exceeded distance limit.
pub const DISTANCE_LIMIT_CONSTRAINT_CODE: i32 = 2;

/// The code of an exceeded duration limit.
pub const DURATION_LIMIT_CONSTRAINT_CODE: i32 = 3;

/// The code of an exceeded capacity.
pub const CAPACITY_CONSTRAINT_CODE: i32 = 4;

/// The code of a break that cannot be taken.
pub const BREAK_CONSTRAINT_CODE: i32 = 5;

/// The code of a missing skill.
pub const SKILLS_CONSTRAINT_CODE: i32 = 6;

/// The code of a violated lock.
pub const LOCKING_CONSTRAINT_CODE: i32 = 7;

/// The code of an unreachable location.
pub const REACHABLE_CONSTRAINT_CODE: i32 = 8;

/// The code of a violated priority.
pub const PRIORITY_CONSTRAINT_CODE: i32 = 9;

/// The code of a job that belongs to a group of another tour.
pub const GROUP_CONSTRAINT_CODE: i32 = 14;

/// The code of a job whose compatibility tag is not that of the tour.
pub const COMPATIBILITY_CONSTRAINT_CODE: i32 = 15;

/// The key under which the group module keeps the groups of a tour.
pub const GROUP_KEY: i32 = 1014;

/// The key under which the compatibility module keeps the tag of a tour.
pub const COMPATIBILITY_KEY: i32 = 1015;

/// The cost that a break adds: -100, as a double.
pub const BREAK_EXTRA_COST: u64 = 0xc059_0000_0000_0000;

/// The share of the capacity from which on a vehicle may reload: 0.9, as a double.
pub const RELOAD_THRESHOLD: u64 = 0x3fec_cccc_cccc_cccd;

/// The penalty on an unbalanced load: 1000, as a double.
pub const BALANCE_PENALTY: u64 = 0x408f_4000_0000_0000;

/// A constraint module of the pipeline, with what it is set up with.
/// Costs and shares are doubles, by their bit patterns.
#[derive(Clone, Copy, Debug, PartialEq, Eq, Structural)]
pub enum ConstraintModuleKind {
    /// Travel and time, with the codes for time, distance and duration.
    Transport { time_code: i32, distance_code: i32, duration_code: i32 },
    /// Capacity, in one dimension or in several; with reloads, the share
    /// of the capacity from which on a vehicle may reload.
    Capacity { code: i32, is_multi_dimensional: bool, reload_threshold: Option<u64> },
    /// Breaks, with the cost that a break adds.
    Break { code: i32, extra_cost: Option<u64>, demote: bool },
    /// Compatibility: jobs with different tags do not share a tour. The
    /// tag of a tour is kept under the state key.
    Compatibility { code: i32, state_key: i32 },
    /// Groups: the jobs of one group are served in one tour. The groups
    /// of a tour are kept under the state key.
    Group { code: i32, state_key: i32 },
    /// Skills.
    Skills { code: i32 },
    /// Priorities, with the cost of one step.
    Priority { cost: u64, code: i32 },
    /// Locks that must be kept.
    StrictLocking { code: i32 },
    /// Reachability of locations.
    Reachable { code: i32 },
    /// As few vehicles in use as possible.
    FleetUsageMinimized,
    /// A balanced load, in one dimension or in several.
    WorkBalance { penalty: u64, is_multi_dimensional: bool },
}

/// The constraint modules, in the order in which they are asked.
pub struct ConstraintPipeline {
    modules: Vec<ConstraintModuleKind>,
}

impl ConstraintPipeline {
    /// The modules, in their order.
    pub closed spec fn view(&self) -> Seq<ConstraintModuleKind> {
        self.modules@
    }

    /// Creates a pipeline without modules.
    pub fn new() -> (r: Self)
        ensures
            r@ == Seq::<ConstraintModuleKind>::empty(),
    {
        ConstraintPipeline { modules: Vec::new() }
    }

    /// Adds a module behind the others.
    pub fn add_module(&mut self, module: ConstraintModuleKind)
        ensures
            final(self)@ == old(self)@.push(module),
    {
        self.modules.push(module);
    }

    /// The number of modules.
    pub fn len(&self) -> (r: usize)
        ensures
            r == self@.len(),
    {
        self.modules.len()
    }

    /// The module at a place, if there is one.
    pub fn get(&self, index: usize) -> (r: Option<ConstraintModuleKind>)
        ensures
            index < self@.len() ==> r == Some(self@[index as int]),
            index >= self@.len() ==> r is None,
    {
        if index < self.modules.len() {
            Some(self.modules[index])
        } else {
            None
        }
    }
}

/// The capacity module that the features call for.
pub open spec fn capacity_module(props: ProblemProperties) -> ConstraintModuleKind {
    ConstraintModuleKind::Capacity {
        code: CAPACITY_CONSTRAINT_CODE,
        is_multi_dimensional: props.has_multi_dimen_capacity,
        reload_threshold: if props.has_reload {
            Some(RELOAD_THRESHOLD)
        } else {
            None
        },
    }
}

/// The work balance module that the features call for.
pub open spec fn work_balance_module(props: ProblemProperties) -> ConstraintModuleKind {
    ConstraintModuleKind::WorkBalance {
        penalty: BALANCE_PENALTY,
        is_multi_dimensional: props.has_multi_dimen_capacity,
    }
}

/// `modules` with `module` behind them where `wanted` holds, else `modules` alone.
pub open spec fn with_module(
    modules: Seq<ConstraintModuleKind>,
    wanted: bool,
    module: ConstraintModuleKind,
) -> Seq<ConstraintModuleKind> {
    if wanted {
        modules.push(module)
    } else {
        modules
    }
}

/// The pipeline that the features call for: travel and time first, then
/// capacity, then breaks, compatibility, groups, skills, priorities, locks
/// and reachability, each where the problem has them.
pub open spec fn pipeline_of(props: ProblemProperties, has_locks: bool) -> Seq<ConstraintModuleKind> {
    let base = seq![
        ConstraintModuleKind::Transport {
            time_code: TIME_CONSTRAINT_CODE,
            distance_code: DISTANCE_LIMIT_CONSTRAINT_CODE,
            duration_code: DURATION_LIMIT_CONSTRAINT_CODE,
        },
        capacity_module(props),
    ];
    let with_breaks = with_module(
        base,
        props.has_breaks,
        ConstraintModuleKind::Break {
            code: BREAK_CONSTRAINT_CODE,
            extra_cost: Some(BREAK_EXTRA_COST),
            demote: false,
        },
    );
    let with_compatibility = with_module(
        with_breaks,
        props.has_compatibility,
        ConstraintModuleKind::Compatibility {
            code: COMPATIBILITY_CONSTRAINT_CODE,
            state_key: COMPATIBILITY_KEY,
        },
    );
    let with_group = with_module(
        with_compatibility,
        props.has_group,
        ConstraintModuleKind::Group { code: GROUP_CONSTRAINT_CODE, state_key: GROUP_KEY },
    );
    let with_skills = with_module(
        with_group,
        props.has_skills,
        ConstraintModuleKind::Skills { code: SKILLS_CONSTRAINT_CODE },
    );
    let with_priority = match props.priority {
        Some(cost) => with_skills.push(
            ConstraintModuleKind::Priority { cost, code: PRIORITY_CONSTRAINT_CODE },
        ),
        None => with_skills,
    };
    let with_locks = with_module(
        with_priority,
        has_locks,
        ConstraintModuleKind::StrictLocking { code: LOCKING_CONSTRAINT_CODE },
    );
    with_module(
        with_locks,
        props.has_unreachable_locations,
        ConstraintModuleKind::Reachable { code: REACHABLE_CONSTRAINT_CODE },
    )
}

/// Adds the capacity module that the features call for.
pub fn add_capacity_module(constraint: &mut ConstraintPipeline, props: &ProblemProperties)
    ensures
        final(constraint)@ == old(constraint)@.push(capacity_module(*props)),
{
    let module = if props.has_reload {
        if props.has_multi_dimen_capacity {
            ConstraintModuleKind::Capacity {
                code: CAPACITY_CONSTRAINT_CODE,
                is_multi_dimensional: true,
                reload_threshold: Some(RELOAD_THRESHOLD),
            }
        } else {
            ConstraintModuleKind::Capacity {
                code: CAPACITY_CONSTRAINT_CODE,
                is_multi_dimensional: false,
                reload_threshold: Some(RELOAD_THRESHOLD),
            }
        }
    } else {
        if props.has_multi_dimen_capacity {
            ConstraintModuleKind::Capacity {
                code: CAPACITY_CONSTRAINT_CODE,
                is_multi_dimensional: true,
                reload_threshold: None,
            }
        } else {
            ConstraintModuleKind::Capacity {
                code: CAPACITY_CONSTRAINT_CODE,
                is_multi_dimensional: false,
                reload_threshold: None,
            }
        }
    };
    constraint.add_module(module);
}

/// Adds the work balance module that the features call for.
pub fn add_work_balance_module(constraint: &mut ConstraintPipeline, props: &ProblemProperties)
    ensures
        final(constraint)@ == old(constraint)@.push(work_balance_module(*props)),
{
    if props.has_multi_dimen_capacity {
        constraint.add_module(
            ConstraintModuleKind::WorkBalance {
                penalty: BALANCE_PENALTY,
                is_multi_dimensional: true,
            },
        );
    } else {
        constraint.add_module(
            ConstraintModuleKind::WorkBalance {
                penalty: BALANCE_PENALTY,
                is_multi_dimensional: false,
            },
        );
    }
}

/// Creates the pipeline that the features call for.
pub fn create_constraint_pipeline(props: &ProblemProperties, has_locks: bool) -> (r:
    ConstraintPipeline)
    ensures
        r@ == pipeline_of(*props, has_locks),
{
    let mut constraint = ConstraintPipeline::new();
    constraint.add_module(
        ConstraintModuleKind::Transport {
            time_code: TIME_CONSTRAINT_CODE,
            distance_code: DISTANCE_LIMIT_CONSTRAINT_CODE,
            duration_code: DURATION_LIMIT_CONSTRAINT_CODE,
        },
    );
    add_capacity_module(&mut constraint, props);
    proof {
        assert(constraint@ =~= seq![
            ConstraintModuleKind::Transport {
                time_code: TIME_CONSTRAINT_CODE,
                distance_code: DISTANCE_LIMIT_CONSTRAINT_CODE,
                duration_code: DURATION_LIMIT_CONSTRAINT_CODE,
            },
            capacity_module(*props),
        ]);
    }
    if props.has_breaks {
        constraint.add_module(
            ConstraintModuleKind::Break {
                code: BREAK_CONSTRAINT_CODE,
                extra_cost: Some(BREAK_EXTRA_COST),
                demote: false,
            },
        );
    }
    if props.has_compatibility {
        constraint.add_module(
            ConstraintModuleKind::Compatibility {
                code: COMPATIBILITY_CONSTRAINT_CODE,
                state_key: COMPATIBILITY_KEY,
            },
        );
    }
    if props.has_group {
        constraint.add_module(
            ConstraintModuleKind::Group { code: GROUP_CONSTRAINT_CODE, state_key: GROUP_KEY },
        );
    }
    if props.has_skills {
        constraint.add_module(ConstraintModuleKind::Skills { code: SKILLS_CONSTRAINT_CODE });
    }
    match props.priority {
        Some(cost) => {
            constraint.add_module(
                ConstraintModuleKind::Priority { cost, code: PRIORITY_CONSTRAINT_CODE },
            );
        },
        None => {},
    }
    if has_locks {
        constraint.add_module(ConstraintModuleKind::StrictLocking { code: LOCKING_CONSTRAINT_CODE });
    }
    if props.has_unreachable_locations {
        constraint.add_module(ConstraintModuleKind::Reachable { code: REACHABLE_CONSTRAINT_CODE });
    }
    constraint
}

/// A term of the objective.
#[derive(Clone, Copy, Debug, PartialEq, Eq, Structural)]
pub enum ObjectiveKind {
    /// The cost of all tours.
    TotalTransportCost,
    /// The number of tours.
    TotalRoutes,
    /// The number of unassigned jobs.
    TotalUnassignedJobs,
}

/// The objective: its terms, and where among them the cost stands.
pub struct MultiObjective {
    /// The terms that count first.
    pub primary: Vec<ObjectiveKind>,
    /// The terms that decide between solutions that are equal on the primary ones.
    pub secondary: Vec<ObjectiveKind>,
    /// The place of the cost among the primary terms, if it is one of them.
    pub primary_cost_idx: Option<usize>,
    /// The place of the cost among the secondary terms, if it is one of them.
    pub secondary_cost_idx: Option<usize>,
}

/// The term that stands for a goal, if the goal has one.
pub open spec fn objective_of(goal: ApiObjective) -> Option<ObjectiveKind> {
    match goal {
        ApiObjective::MinimizeCost => Some(ObjectiveKind::TotalTransportCost),
        ApiObjective::MinimizeTours => Some(ObjectiveKind::TotalRoutes),
        ApiObjective::MinimizeUnassignedJobs => Some(ObjectiveKind::TotalUnassignedJobs),
        _ => None,
    }
}

/// The constraint module that a goal calls for, if it calls for one.
pub open spec fn module_of(goal: ApiObjective, props: ProblemProperties) -> Option<
    ConstraintModuleKind,
> {
    match goal {
        ApiObjective::MinimizeTours => Some(ConstraintModuleKind::FleetUsageMinimized),
        ApiObjective::BalanceMaxLoad => Some(work_balance_module(props)),
        _ => None,
    }
}

/// The terms that stand for the goals, in the goals' order.
pub open spec fn mapped_objectives(goals: Seq<ApiObjective>) -> Seq<ObjectiveKind>
    decreases goals.len(),
{
    if goals.len() == 0 {
        Seq::empty()
    } else {
        let rest = mapped_objectives(goals.drop_last());
        match objective_of(goals.last()) {
            Some(objective) => rest.push(objective),
            None => rest,
        }
    }
}

/// The constraint modules that the goals call for, in the goals' order.
pub open spec fn mapped_modules(goals: Seq<ApiObjective>, props: ProblemProperties) -> Seq<
    ConstraintModuleKind,
>
    decreases goals.len(),
{
    if goals.len() == 0 {
        Seq::empty()
    } else {
        let rest = mapped_modules(goals.drop_last(), props);
        match module_of(goals.last(), props) {
            Some(module) => rest.push(module),
            None => rest,
        }
    }
}

/// The place of the last goal that minimizes the cost, if there is one.
pub open spec fn cost_index(goals: Seq<ApiObjective>) -> Option<usize>
    decreases goals.len(),
{
    if goals.len() == 0 {
        None
    } else if goals.last() == ApiObjective::MinimizeCost {
        Some((goals.len() - 1) as usize)
    } else {
        cost_index(goals.drop_last())
    }
}

/// Whether every goal can be mapped: balancing activities cannot.
pub open spec fn is_supported(goals: Seq<ApiObjective>) -> bool {
    forall|i: int| 0 <= i < goals.len() ==> #[trigger] goals[i] != ApiObjective::BalanceActivities
}

/// The secondary goals, where there are any.
pub open spec fn secondary_goals(objectives: Objectives) -> Seq<ApiObjective> {
    match objectives.secondary {
        Some(secondary) => secondary@,
        None => Seq::empty(),
    }
}

/// Whether the objective is the one that the goals call for; without
/// goals it counts unassigned jobs and tours first, and the cost second.
pub open spec fn is_objective_of(objective: MultiObjective, goals: Option<Objectives>) -> bool {
    match goals {
        Some(objectives) => {
            &&& objective.primary@ == mapped_objectives(objectives.primary@)
            &&& objective.secondary@ == mapped_objectives(secondary_goals(objectives))
            &&& objective.primary_cost_idx == cost_index(objectives.primary@)
            &&& objective.secondary_cost_idx == cost_index(secondary_goals(objectives))
        },
        None => {
            &&& objective.primary@ == seq![
                ObjectiveKind::TotalUnassignedJobs,
                ObjectiveKind::TotalRoutes,
            ]
            &&& objective.secondary@ == seq![ObjectiveKind::TotalTransportCost]
            &&& objective.primary_cost_idx is None
            &&& objective.secondary_cost_idx == Some(0usize)
        },
    }
}

/// The constraint modules that the goals call for; without goals, the
/// one that keeps the number of vehicles in use small.
pub open spec fn modules_of(goals: Option<Objectives>, props: ProblemProperties) -> Seq<
    ConstraintModuleKind,
> {
    match goals {
        Some(objectives) => mapped_modules(objectives.primary@, props) + mapped_modules(
            secondary_goals(objectives),
            props,
        ),
        None => seq![ConstraintModuleKind::FleetUsageMinimized],
    }
}

/// Whether the goals can be mapped.
pub open spec fn are_supported(goals: Option<Objectives>) -> bool {
    match goals {
        Some(objectives) => is_supported(objectives.primary@) && is_supported(
            secondary_goals(objectives),
        ),
        None => true,
    }
}

/// Tells whether every goal can be mapped.
pub fn can_map(goals: &Vec<ApiObjective>) -> (r: bool)
    ensures
        r == is_supported(goals@),
{
    let mut i: usize = 0;
    while i < goals.len()
        invariant
            i <= goals@.len(),
            forall|k: int| 0 <= k < i ==> #[trigger] goals@[k] != ApiObjective::BalanceActivities,
        decreases goals@.len() - i,
    {
        match goals[i] {
            ApiObjective::BalanceActivities => {
                return false;
            },
            _ => {},
        }
        i = i + 1;
    }
    true
}

/// Maps goals to terms, adds the constraint modules that the goals call
/// for, and finds the place of the cost among the goals.
pub fn map_objectives(
    goals: &Vec<ApiObjective>,
    constraint: &mut ConstraintPipeline,
    props: &ProblemProperties,
) -> (r: (Vec<ObjectiveKind>, Option<usize>))
    requires
        is_supported(goals@),
    ensures
        r.0@ == mapped_objectives(goals@),
        r.1 == cost_index(goals@),
        final(constraint)@ == old(constraint)@ + mapped_modules(goals@, *props),
{
    let mut core_objectives: Vec<ObjectiveKind> = Vec::new();
    let mut cost_idx: Option<usize> = None;
    let mut i: usize = 0;
    proof {
        assert(goals@.take(0) =~= Seq::empty());
        assert(constraint@ =~= old(constraint)@ + Seq::empty());
    }
    while i < goals.len()
        invariant
            i <= goals@.len(),
            is_supported(goals@),
            core_objectives@ == mapped_objectives(goals@.take(i as int)),
            cost_idx == cost_index(goals@.take(i as int)),
            constraint@ == old(constraint)@ + mapped_modules(goals@.take(i as int), *props),
        decreases goals@.len() - i,
    {
        let ghost before = constraint@;
        proof {
            assert(goals@.take(i as int + 1).drop_last() =~= goals@.take(i as int));
            assert(goals@.take(i as int + 1).last() == goals@[i as int]);
        }
        match goals[i] {
            ApiObjective::MinimizeCost => {
                cost_idx = Some(i);
                core_objectives.push(ObjectiveKind::TotalTransportCost);
            },
            ApiObjective::MinimizeTours => {
                constraint.add_module(ConstraintModuleKind::FleetUsageMinimized);
                core_objectives.push(ObjectiveKind::TotalRoutes);
            },
            ApiObjective::MinimizeUnassignedJobs => {
                core_objectives.push(ObjectiveKind::TotalUnassignedJobs);
            },
            ApiObjective::BalanceMaxLoad => {
                add_work_balance_module(constraint, props);
            },
            ApiObjective::BalanceActivities => {},
        }
        proof {
            let done = mapped_modules(goals@.take(i as int), *props);
            match module_of(goals@[i as int], *props) {
                Some(module) => {
                    assert(constraint@ =~= old(constraint)@ + done.push(module));
                },
                None => {},
            }
        }
        i = i + 1;
    }
    proof {
        assert(goals@.take(i as int) =~= goals@);
    }
    (core_objectives, cost_idx)
}

/// Creates the objective that the goals call for, and adds the constraint
/// modules that they call for to the pipeline.
pub fn create_objective(
    goals: &Option<Objectives>,
    constraint: &mut ConstraintPipeline,
    props: &ProblemProperties,
) -> (r: MultiObjective)
    requires
        are_supported(*goals),
    ensures
        is_objective_of(r, *goals),
        final(constraint)@ == old(constraint)@ + modules_of(*goals, *props),
{
    match goals {
        Some(objectives) => {
            let (primary, primary_cost_idx) = map_objectives(&objectives.primary, constraint, props);
            let ghost middle = constraint@;
            let (secondary, secondary_cost_idx) = match &objectives.secondary {
                Some(list) => map_objectives(list, constraint, props),
                None => {
                    let empty: Vec<ApiObjective> = Vec::new();
                    map_objectives(&empty, constraint, props)
                },
            };
            proof {
                assert(constraint@ =~= old(constraint)@ + modules_of(*goals, *props));
            }
            MultiObjective { primary, secondary, primary_cost_idx, secondary_cost_idx }
        },
        None => {
            constraint.add_module(ConstraintModuleKind::FleetUsageMinimized);
            proof {
                assert(constraint@ =~= old(constraint)@ + modules_of(*goals, *props));
            }
            let mut primary: Vec<ObjectiveKind> = Vec::new();
            primary.push(ObjectiveKind::TotalUnassignedJobs);
            primary.push(ObjectiveKind::TotalRoutes);
            let mut secondary: Vec<ObjectiveKind> = Vec::new();
            secondary.push(ObjectiveKind::TotalTransportCost);
            proof {
                assert(primary@ =~= seq![
                    ObjectiveKind::TotalUnassignedJobs,
                    ObjectiveKind::TotalRoutes,
                ]);
                assert(secondary@ =~= seq![ObjectiveKind::TotalTransportCost]);
            }
            MultiObjective {
                primary,
                secondary,
                primary_cost_idx: None,
                secondary_cost_idx: Some(0),
            }
        },
    }
}

impl MultiObjective {
    /// The term that gives the cost of a solution: the one at the place
    /// marked among the primary terms, else the one at the place marked
    /// among the secondary terms. A marked place must exist, also the
    /// secondary one where the primary one is taken.
    pub open spec fn cost_term(&self) -> Option<ObjectiveKind> {
        let secondary_in_range = match self.secondary_cost_idx {
            Some(index) => index < self.secondary@.len(),
            None => true,
        };
        match self.primary_cost_idx {
            Some(index) => if index < self.primary@.len() && secondary_in_range {
                Some(self.primary@[index as int])
            } else {
                None
            },
            None => match self.secondary_cost_idx {
                Some(index) => if index < self.secondary@.len() {
                    Some(self.secondary@[index as int])
                } else {
                    None
                },
                None => None,
            },
        }
    }

    /// Finds the term that gives the cost of a solution, if the marked places exist.
    pub fn cost_objective(&self) -> (r: Option<ObjectiveKind>)
        ensures
            r == self.cost_term(),
    {
        let secondary_in_range = match self.secondary_cost_idx {
            Some(index) => index < self.secondary.len(),
            None => true,
        };
        match self.primary_cost_idx {
            Some(index) => {
                if index < self.primary.len() && secondary_in_range {
                    Some(self.primary[index])
                } else {
                    None
                }
            },
            None => match self.secondary_cost_idx {
                Some(index) => {
                    if index < self.secondary.len() {
                        Some(self.secondary[index])
                    } else {
                        None
                    }
                },
                None => None,
            },
        }
    }

    /// The number of terms, which is the length of a fitness vector, if it is a machine number.
    pub fn size(&self) -> (r: Option<usize>)
        ensures
            self.primary@.len() + self.secondary@.len() <= usize::MAX ==> r == Some(
                (self.primary@.len() + self.secondary@.len()) as usize,
            ),
            self.primary@.len() + self.secondary@.len() > usize::MAX ==> r is None,
    {
        self.primary.len().checked_add(self.secondary.len())
    }
}

/// The name under which the extras tell how capacity is measured.
pub open spec fn capacity_type_name() -> Seq<char> {
    "capacity_type"@
}

/// How capacity is measured, as the extras have it: "multi" for several dimensions, "single" for one.
pub open spec fn capacity_type_text(props: ProblemProperties) -> Seq<char> {
    if props.has_multi_dimen_capacity {
        "multi"@
    } else {
        "single"@
    }
}

/// Creates the extras of a problem: they tell how capacity is measured.
pub fn create_extras(props: &ProblemProperties) -> (r: Extras)
    ensures
        r@ == no_extras().insert(capacity_type_name(), capacity_type_text(*props)),
{
    let mut extras = Extras::new();
    let text = if props.has_multi_dimen_capacity {
        "multi".to_owned()
    } else {
        "single".to_owned()
    };
    extras.insert("capacity_type".to_owned(), text);
    extras
}

/// Whether the text is one of the entries.
pub open spec fn holds_text(entries: Seq<String>, text: Seq<char>) -> bool {
    exists|i: int| 0 <= i < entries.len() && (#[trigger] entries[i])@ == text
}

/// Whether `set` holds each text of `list` once, and no other text.
pub open spec fn is_set_of(set: Seq<String>, list: Seq<String>) -> bool {
    &&& distinct_texts(set)
    &&& forall|i: int| 0 <= i < list.len() ==> holds_text(set, (#[trigger] list[i])@)
    &&& forall|i: int| 0 <= i < set.len() ==> holds_text(list, (#[trigger] set[i])@)
}

fn text_is_in(entries: &Vec<String>, text: &String) -> (r: bool)
    ensures
        r == holds_text(entries@, text@),
{
    let mut i: usize = 0;
    while i < entries.len()
        invariant
            i <= entries@.len(),
            forall|k: int| 0 <= k < i ==> (#[trigger] entries@[k])@ != text@,
        decreases entries@.len() - i,
    {
        if entries[i] == *text {
            return true;
        }
        i = i + 1;
    }
    false
}

/// Sets the skills of a job: each skill of the list once. Without a list nothing changes.
pub fn add_skills(dimens: &mut Dimensions, skills: &Option<Vec<String>>)
    ensures
        old(dimens).wf() ==> final(dimens).wf(),
        final(dimens).compatibility == old(dimens).compatibility,
        match *skills {
            Some(list) => final(dimens).skills matches Some(set) && is_set_of(set@, list@),
            None => final(dimens).skills == old(dimens).skills,
        },
{
    match skills {
        Some(list) => {
            let set = unique_texts(list);
            dimens.skills = Some(set);
        },
        None => {},
    }
}

fn unique_texts(list: &Vec<String>) -> (set: Vec<String>)
    ensures
        is_set_of(set@, list@),
{
    let mut set: Vec<String> = Vec::new();
    let mut i: usize = 0;
    while i < list.len()
        invariant
            i <= list@.len(),
            distinct_texts(set@),
            forall|k: int| 0 <= k < i ==> holds_text(set@, (#[trigger] list@[k])@),
            forall|k: int| 0 <= k < set@.len() ==> holds_text(list@, (#[trigger] set@[k])@),
        decreases list@.len() - i,
    {
        if !text_is_in(&set, &list[i]) {
            let ghost before = set@;
            let text = list[i].clone();
            set.push(text);
            proof {
                assert forall|k: int| 0 <= k < i + 1 implies holds_text(
                    set@,
                    (#[trigger] list@[k])@,
                ) by {
                    if k < i {
                        let w = choose|w: int|
                            0 <= w < before.len() && (#[trigger] before[w])@ == list@[k]@;
                        assert(set@[w]@ == list@[k]@);
                    } else {
                        assert(set@[set@.len() - 1]@ == list@[k]@);
                    }
                }
                assert forall|k: int| 0 <= k < set@.len() implies holds_text(
                    list@,
                    (#[trigger] set@[k])@,
                ) by {
                    if k < before.len() {
                        assert(set@[k] == before[k]);
                    } else {
                        assert(list@[i as int]@ == set@[k]@);
                    }
                }
                assert forall|a: int, b: int| 0 <= a < b < set@.len() implies (
                #[trigger] set@[a])@ != (#[trigger] set@[b])@ by {
                    if b < before.len() {
                        assert(set@[a] == before[a]);
                        assert(set@[b] == before[b]);
                    } else {
                        assert(set@[a] == before[a]);
                    }
                }
            }
        }
        i = i + 1;
    }
    set
}

/// What a problem definition is mapped to before the search is set up.
pub struct ProblemParts {
    /// The features that the definition uses.
    pub properties: ProblemProperties,
    /// The constraint modules.
    pub constraint: ConstraintPipeline,
    /// The objective.
    pub objective: MultiObjective,
    /// The extras.
    pub extras: Extras,
}

/// Maps a problem definition: finds the features that it uses, and
/// creates the extras, the constraint pipeline that the features call
/// for, and the objective, whose modules stand behind the others.
pub fn map_to_problem(api_problem: &ApiProblem, matrices: &Vec<Matrix>, has_locks: bool) -> (r:
    ProblemParts)
    requires
        are_supported(api_problem.objectives),
    ensures
        r.properties == properties_of(*api_problem, matrices@),
        r.extras@ == no_extras().insert(capacity_type_name(), capacity_type_text(r.properties)),
        r.constraint@ == pipeline_of(r.properties, has_locks) + modules_of(
            api_problem.objectives,
            r.properties,
        ),
        is_objective_of(r.objective, api_problem.objectives),
{
    let properties = get_problem_properties(api_problem, matrices);
    let extras = create_extras(&properties);
    let mut constraint = create_constraint_pipeline(&properties, has_locks);
    let objective = create_objective(&api_problem.objectives, &mut constraint, &properties);
    ProblemParts { properties, constraint, objective, extras }
}

} // verus!
