//! The problem model: jobs, actors and locks.

use vstd::prelude::*;

verus! {

/// What a job carries besides its place and time.
pub struct Dimensions {
    /// Jobs with different tags must not share a tour.
    pub compatibility: Option<String>,
    /// The skills that the serving actor must have, each named once.
    pub skills: Option<Vec<String>>,
}

/// Whether no two entries have the same text.
pub open spec fn distinct_texts(entries: Seq<String>) -> bool {
    forall|i: int, j: int|
        0 <= i < j < entries.len() ==> (#[trigger] entries[i])@ != (#[trigger] entries[j])@
}

impl Dimensions {
    /// What all dimensions satisfy: the skills are a set, so that no
    /// skill is named twice.
    pub open spec fn wf(&self) -> bool {
        match self.skills {
            Some(skills) => distinct_texts(skills@),
            None => true,
        }
    }

    /// Creates the dimensions of a job without tag and skills.
    pub fn new() -> (r: Self)
        ensures
            r.wf(),
            r.compatibility is None,
            r.skills is None,
    {
        Dimensions { compatibility: None, skills: None }
    }

    /// Tells whether the job asks for the skill.
    pub fn has_skill(&self, skill: &String) -> (r: bool)
        ensures
            r == match self.skills {
                Some(skills) => exists|i: int|
                    0 <= i < skills@.len() && (#[trigger] skills@[i])@ == skill@,
                None => false,
            },
    {
        match &self.skills {
            Some(skills) => has_text(skills, skill),
            None => false,
        }
    }
}

fn has_text(entries: &Vec<String>, text: &String) -> (r: bool)
    ensures
        r == exists|i: int| 0 <= i < entries@.len() && (#[trigger] entries@[i])@ == text@,
{
    let mut i: usize = 0;
    while i < entries.len()
        invariant
            i <= entries@.len(),
            forall|k: int| 0 <= k < i ==> (#[trigger] entries@[k])@ != text@,
        decreases entries@.len() - i,
    {
        if entries[i] == *text {
            return true;
        }
        i = i + 1;
    }
    false
}

/// A job is known by its identifier: two jobs are the same job exactly
/// where their identifiers agree.
pub struct Job {
    /// The stable handle of the job.
    pub id: u64,
    /// Its dimensions.
    pub dimens: Dimensions,
}

/// A unique combination of vehicle, driver and shift.
#[derive(Clone, Copy, Debug, PartialEq, Eq, Structural)]
pub struct Actor {
    /// The vehicle.
    pub vehicle: u64,
    /// The driver.
    pub driver: u64,
    /// The shift of the vehicle.
    pub shift: u64,
}

/// The actors that a problem can use.
pub struct Fleet {
    /// Every actor, once.
    pub actors: Vec<Actor>,
}

/// What is to be solved: built once, and only read afterwards.
pub struct Problem {
    /// The fleet.
    pub fleet: Fleet,
    /// All jobs.
    pub jobs: Vec<Job>,
    /// The number of terms of the objective, which is the length of every fitness vector.
    pub objectives: usize,
}

/// How locked jobs are ordered in a tour.
#[derive(Clone, Copy, Debug, PartialEq, Eq, Structural)]
pub enum LockOrder {
    /// Jobs can be reshuffled in any order.
    Any,
    /// Jobs cannot be reshuffled, but a new job can be inserted in between.
    Sequence,
    /// Jobs cannot be reshuffled and no job can be inserted in between.
    Strict,
}

/// How other jobs can be inserted around locked ones.
#[derive(Clone, Copy, Debug, PartialEq, Eq, Structural)]
pub enum LockPosition {
    /// No specific position.
    Any,
    /// The first job follows the departure.
    Departure,
    /// The last job is before the arrival.
    Arrival,
    /// The first and the last job stand between departure and arrival.
    Fixed,
}

/// The details of a lock.
pub struct LockDetail {
    /// Lock order.
    pub order: LockOrder,
    /// Lock position.
    pub position: LockPosition,
    /// Jobs affected by the lock.
    pub jobs: Vec<Job>,
}

/// Jobs locked to the actors that meet a condition.
pub struct Lock<C> {
    /// Tells of an actor whether the locked jobs can be assigned to it.
    pub condition: C,
    /// The details of the lock.
    pub details: Vec<LockDetail>,
}

impl LockDetail {
    /// Creates a new lock detail.
    pub fn new(order: LockOrder, position: LockPosition, jobs: Vec<Job>) -> (r: Self)
        ensures
            r.order == order,
            r.position == position,
            r.jobs == jobs,
    {
        LockDetail { order, position, jobs }
    }

    /// Whether another job may stand between two jobs of the lock.
    pub fn admits_insertion_between(&self) -> (r: bool)
        ensures
            r == (self.order != LockOrder::Strict),
    {
        match self.order {
            LockOrder::Strict => false,
            _ => true,
        }
    }

    /// Whether another job may stand between the departure and the first job of the lock.
    pub fn admits_insertion_before(&self) -> (r: bool)
        ensures
            r == (self.position == LockPosition::Any || self.position == LockPosition::Arrival),
    {
        match self.position {
            LockPosition::Any | LockPosition::Arrival => true,
            _ => false,
        }
    }

    /// Whether another job may stand between the last job of the lock and the arrival.
    pub fn admits_insertion_after(&self) -> (r: bool)
        ensures
            r == (self.position == LockPosition::Any || self.position == LockPosition::Departure),
    {
        match self.position {
            LockPosition::Any | LockPosition::Departure => true,
            _ => false,
        }
    }
}

impl<C> Lock<C> {
    /// Creates a new lock.
    pub fn new(condition: C, details: Vec<LockDetail>) -> (r: Self)
        ensures
            r.condition == condition,
            r.details == details,
    {
        Lock { condition, details }
    }
}

impl<C: Fn(&Actor) -> bool> Lock<C> {
    /// Asks the condition whether the locked jobs can be assigned to the actor.
    pub fn is_applicable(&self, actor: &Actor) -> (r: bool)
        requires
            self.condition.requires((actor,)),
        ensures
            self.condition.ensures((actor,), r),
    {
        (self.condition)(actor)
    }
}

} // verus!
