//! Extra values that travel with a problem, by their names.

use hashbrown::HashMap;
use vstd::prelude::*;

verus! {

/// Named texts that travel with a problem. The entries live in a hash map
/// of `hashbrown`.
#[verifier::external_body]
pub struct Extras {
    entries: HashMap<String, String>,
}

/// The entries of the extras: the text that stands under each name.
pub uninterp spec fn extras_entries(extras: Extras) -> Map<Seq<char>, Seq<char>>;

/// The entries of extras that hold nothing.
pub open spec fn no_extras() -> Map<Seq<char>, Seq<char>> {
    Map::empty()
}

/// Makes the extras without entries: `hashbrown::HashMap::new`, which gives an empty map.
#[verifier::external_body]
fn empty_extras() -> (r: Extras)
    ensures
        extras_entries(r) == no_extras(),
{
    Extras { entries: HashMap::new() }
}

/// Puts a text under a name with `hashbrown::HashMap::insert`: afterwards the name
/// holds the text, whether or not it held one before, and every other
/// name holds what it held.
#[verifier::external_body]
fn insert_extra(extras: &mut Extras, name: String, text: String)
    ensures
        extras_entries(*final(extras)) == extras_entries(*old(extras)).insert(name@, text@),
{
    extras.entries.insert(name, text);
}

/// Looks a name up with `hashbrown::HashMap::get`: the text under the name, or
/// nothing where the name holds none.
#[verifier::external_body]
fn get_extra<'a>(extras: &'a Extras, name: &String) -> (r: Option<&'a String>)
    ensures
        match r {
            Some(text) => extras_entries(*extras).contains_key(name@) && extras_entries(
                *extras,
            )[name@] == text@,
            None => !extras_entries(*extras).contains_key(name@),
        },
{
    extras.entries.get(name)
}

impl Extras {
    /// The text that stands under each name.
    pub open spec fn view(&self) -> Map<Seq<char>, Seq<char>> {
        extras_entries(*self)
    }

    /// Creates extras without entries.
    pub fn new() -> (r: Self)
        ensures
            r@ == no_extras(),
    {
        empty_extras()
    }

    /// Puts a text under a name.
    pub fn insert(&mut self, name: String, text: String)
        ensures
            final(self)@ == old(self)@.insert(name@, text@),
    {
        insert_extra(self, name, text);
    }

    /// The text under a name, if there is one.
    pub fn get<'a>(&'a self, name: &String) -> (r: Option<&'a String>)
        ensures
            match r {
                Some(text) => self@.contains_key(name@) && self@[name@] == text@,
                None => !self@.contains_key(name@),
            },
    {
        get_extra(self, name)
    }
}

} // verus!
