//! Typed principals handed to route handlers: the only identity information
//! downstream code receives.

use vstd::prelude::*;

verus! {

/// A broadcaster authorized for its own namespace (its user id).
#[derive(Clone, Debug, PartialEq, Eq)]
pub struct Broadcaster {
    pub id: String,
}

impl Broadcaster {
    pub fn new(id: String) -> (b: Broadcaster)
        ensures
            b.id@ == id@,
    {
        Broadcaster { id }
    }
}

/// A reader authorized to read every namespace.
#[derive(Clone, Debug, PartialEq, Eq)]
pub struct Reader {
    pub id: String,
}

impl Reader {
    pub fn new(id: String) -> (r: Reader)
        ensures
            r.id@ == id@,
    {
        Reader { id }
    }
}

} // verus!
