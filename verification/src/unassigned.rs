//! The jobs that a solution leaves unassigned, each with the reason.

use hashbrown::HashMap;
use vstd::prelude::*;

verus! {

/// The unassigned jobs of a solution: for the identifier of each the code
/// of the reason. The entries live in a hash map of `hashbrown`.
#[verifier::external_body]
pub struct UnassignedJobs {
    entries: HashMap<u64, i32>,
}

/// The entries: the code that stands under each identifier.
pub uninterp spec fn unassigned_entries(jobs: UnassignedJobs) -> Map<u64, i32>;

/// The entries where no job is unassigned.
pub open spec fn none_unassigned() -> Map<u64, i32> {
    Map::empty()
}

/// Makes the map without entries: `hashbrown::HashMap::new`, which gives an empty map.
#[verifier::external_body]
fn empty_unassigned() -> (r: UnassignedJobs)
    ensures
        unassigned_entries(r) == none_unassigned(),
{
    UnassignedJobs { entries: HashMap::new() }
}

/// Puts a code under an identifier with `hashbrown::HashMap::insert`: afterwards the
/// identifier holds the code, whether or not it held one before, and
/// every other identifier holds what it held.
#[verifier::external_body]
fn insert_unassigned(jobs: &mut UnassignedJobs, id: u64, code: i32)
    ensures
        unassigned_entries(*final(jobs)) == unassigned_entries(*old(jobs)).insert(id, code),
{
    jobs.entries.insert(id, code);
}

/// Looks an identifier up with `hashbrown::HashMap::get`: the code under it, or
/// nothing where it holds none.
#[verifier::external_body]
fn get_unassigned(jobs: &UnassignedJobs, id: u64) -> (r: Option<i32>)
    ensures
        match r {
            Some(code) => unassigned_entries(*jobs).contains_key(id) && unassigned_entries(
                *jobs,
            )[id] == code,
            None => !unassigned_entries(*jobs).contains_key(id),
        },
{
    jobs.entries.get(&id).copied()
}

impl UnassignedJobs {
    /// The code that stands under each identifier.
    pub open spec fn view(&self) -> Map<u64, i32> {
        unassigned_entries(*self)
    }

    /// Creates the map without entries.
    pub fn new() -> (r: Self)
        ensures
            r@ == none_unassigned(),
    {
        empty_unassigned()
    }

    /// Notes the reason for which a job is unassigned.
    pub fn insert(&mut self, id: u64, code: i32)
        ensures
            final(self)@ == old(self)@.insert(id, code),
    {
        insert_unassigned(self, id, code);
    }

    /// The reason for which a job is unassigned, if it is.
    pub fn get(&self, id: u64) -> (r: Option<i32>)
        ensures
            match r {
                Some(code) => self@.contains_key(id) && self@[id] == code,
                None => !self@.contains_key(id),
            },
    {
        get_unassigned(self, id)
    }
}

} // verus!
