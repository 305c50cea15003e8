//! The state that constraint modules keep on a route, by the modules' keys.

use hashbrown::HashMap;
use vstd::prelude::*;

verus! {

/// What the constraint modules have noted on a route: for each key of a
/// module the tag that it keeps there. The entries live in a hash map of
/// `hashbrown`.
#[verifier::external_body]
pub struct RouteState {
    entries: HashMap<i32, Option<String>>,
}

/// The entries of a route state: what stands under each key.
pub uninterp spec fn state_entries(state: RouteState) -> Map<i32, Option<String>>;

/// The entries of a state that holds nothing.
pub open spec fn no_entries() -> Map<i32, Option<String>> {
    Map::empty()
}

/// Makes the state without entries: `hashbrown::HashMap::new`, which gives an empty map.
#[verifier::external_body]
fn empty_state() -> (r: RouteState)
    ensures
        state_entries(r) == no_entries(),
{
    RouteState { entries: HashMap::new() }
}

/// Puts a value under a key with `hashbrown::HashMap::insert`: afterwards the key
/// holds the value, whether or not it held one before, and every other key
/// holds what it held.
#[verifier::external_body]
fn insert_entry(state: &mut RouteState, key: i32, value: Option<String>)
    ensures
        state_entries(*final(state)) == state_entries(*old(state)).insert(key, value),
{
    state.entries.insert(key, value);
}

/// Looks a key up with `hashbrown::HashMap::get`: the value under the key, or
/// nothing where the key holds none.
#[verifier::external_body]
fn get_entry(state: &RouteState, key: i32) -> (r: Option<&Option<String>>)
    ensures
        match r {
            Some(value) => state_entries(*state).contains_key(key) && state_entries(*state)[key]
                == *value,
            None => !state_entries(*state).contains_key(key),
        },
{
    state.entries.get(&key)
}

impl RouteState {
    /// What stands under each key.
    pub open spec fn view(&self) -> Map<i32, Option<String>> {
        state_entries(*self)
    }

    /// Creates a state without entries.
    pub fn new() -> (r: Self)
        ensures
            r@ == no_entries(),
    {
        empty_state()
    }

    /// The value that a module keeps under its key, if it keeps one.
    pub fn get_route_state(&self, key: i32) -> (r: Option<&Option<String>>)
        ensures
            match r {
                Some(value) => self@.contains_key(key) && self@[key] == *value,
                None => !self@.contains_key(key),
            },
    {
        get_entry(self, key)
    }

    /// Puts a value under a module's key.
    pub fn put_route_state(&mut self, key: i32, value: Option<String>)
        ensures
            final(self)@ == old(self)@.insert(key, value),
    {
        insert_entry(self, key, value);
    }
}

/// What termination criteria keep between generations: for each
/// criterion's key a window of costs, which are doubles by their bit
/// patterns. The entries live in a hash map of `hashbrown`.
#[verifier::external_body]
pub struct RefinementState {
    entries: HashMap<String, Vec<u64>>,
}

/// The entries of a refinement state: the window that stands under each key.
pub uninterp spec fn refinement_entries(state: RefinementState) -> Map<Seq<char>, Seq<u64>>;

/// The entries of a refinement state that holds nothing.
pub open spec fn no_windows() -> Map<Seq<char>, Seq<u64>> {
    Map::empty()
}

/// Makes the state without entries: `hashbrown::HashMap::new`, which gives an empty map.
#[verifier::external_body]
fn empty_refinement_state() -> (r: RefinementState)
    ensures
        refinement_entries(r) == no_windows(),
{
    RefinementState { entries: HashMap::new() }
}

/// Puts a window under a key with `hashbrown::HashMap::insert`: afterwards
/// the key holds the window, whether or not it held one before, and every
/// other key holds what it held.
#[verifier::external_body]
fn insert_window(state: &mut RefinementState, key: String, window: Vec<u64>)
    ensures
        refinement_entries(*final(state)) == refinement_entries(*old(state)).insert(key@, window@),
{
    state.entries.insert(key, window);
}

/// Takes the window under a key out with `hashbrown::HashMap::remove`:
/// the window that the key held, or nothing where it held none;
/// afterwards the key holds nothing, and every other key holds what it held.
#[verifier::external_body]
fn remove_window(state: &mut RefinementState, key: &String) -> (r: Option<Vec<u64>>)
    ensures
        refinement_entries(*final(state)) == refinement_entries(*old(state)).remove(key@),
        match r {
            Some(window) => refinement_entries(*old(state)).contains_key(key@)
                && refinement_entries(*old(state))[key@] == window@,
            None => !refinement_entries(*old(state)).contains_key(key@),
        },
{
    state.entries.remove(key)
}

impl RefinementState {
    /// The window that stands under each key.
    pub open spec fn view(&self) -> Map<Seq<char>, Seq<u64>> {
        refinement_entries(*self)
    }

    /// Creates a state without entries.
    pub fn new() -> (r: Self)
        ensures
            r@ == no_windows(),
    {
        empty_refinement_state()
    }

    /// Puts a window under a key.
    pub fn insert(&mut self, key: String, window: Vec<u64>)
        ensures
            final(self)@ == old(self)@.insert(key@, window@),
    {
        insert_window(self, key, window);
    }

    /// Takes the window under a key out, if there is one.
    pub fn remove(&mut self, key: &String) -> (r: Option<Vec<u64>>)
        ensures
            final(self)@ == old(self)@.remove(key@),
            match r {
                Some(window) => old(self)@.contains_key(key@) && old(self)@[key@] == window@,
                None => !old(self)@.contains_key(key@),
            },
    {
        remove_window(self, key)
    }
}

} // verus!
