//! A materialized view of a request's headers: an ordered list of
//! (name, value) pairs, with lookup by name. Header names compare
//! ASCII-case-insensitively, values byte-exact.

use vstd::prelude::*;
use crate::text::seq_eq_ci;
use crate::text::str_eq_ci;

verus! {

/// Request headers, in arrival order.
pub struct Headers {
    entries: Vec<(String, String)>,
}

impl View for Headers {
    type V = Seq<(Seq<char>, Seq<char>)>;

    closed spec fn view(&self) -> Seq<(Seq<char>, Seq<char>)> {
        self.entries@.map_values(|p: (String, String)| (p.0@, p.1@))
    }
}

/// The value of the first header whose name equals `name` up to ASCII case.
pub open spec fn spec_get_one(h: Seq<(Seq<char>, Seq<char>)>, name: Seq<char>) -> Option<Seq<char>>
    decreases h.len(),
{
    if h.len() == 0 {
        None
    } else if seq_eq_ci(h[0].0, name) {
        Some(h[0].1)
    } else {
        spec_get_one(h.drop_first(), name)
    }
}

proof fn lemma_get_one_skip(h: Seq<(Seq<char>, Seq<char>)>, name: Seq<char>, i: int)
    requires
        0 <= i < h.len(),
        !seq_eq_ci(h[i].0, name),
        spec_get_one(h, name) == spec_get_one(h.skip(i), name),
    ensures
        spec_get_one(h, name) == spec_get_one(h.skip(i + 1), name),
{
    assert(h.skip(i).drop_first() =~= h.skip(i + 1));
}

impl Headers {
    /// An empty header map.
    pub fn new() -> (h: Headers)
        ensures
            h@.len() == 0,
    {
        Headers { entries: Vec::new() }
    }

    /// Append a header.
    pub fn add_raw(&mut self, name: &str, value: &str)
        ensures
            final(self)@ == old(self)@.push((name@, value@)),
    {
        let pair = (String::from_str(name), String::from_str(value));
        self.entries.push(pair);
        proof {
            assert(self@ =~= old(self)@.push((name@, value@)));
        }
    }

    /// The value of the first header named `name` (ASCII-case-insensitively),
    /// if any.
    pub fn get_one(&self, name: &str) -> (r: Option<&String>)
        ensures
            match r {
                Some(v) => spec_get_one(self@, name@) == Some(v@),
                None => spec_get_one(self@, name@) is None,
            },
    {
        let n = self.entries.len();
        let mut i: usize = 0;
        proof {
            assert(self@.skip(0) =~= self@);
        }
        while i < n
            invariant
                n == self.entries.len(),
                self@.len() == n,
                i <= n,
                spec_get_one(self@, name@) == spec_get_one(self@.skip(i as int), name@),
            decreases n - i,
        {
            let entry = &self.entries[i];
            proof {
                assert(self@[i as int] == (entry.0@, entry.1@));
                assert(self@.skip(i as int)[0] == self@[i as int]);
            }
            if str_eq_ci(entry.0.as_str(), name) {
                return Some(&entry.1);
            }
            proof {
                lemma_get_one_skip(self@, name@, i as int);
            }
            i = i + 1;
        }
        proof {
            assert(self@.skip(n as int).len() == 0);
        }
        None
    }
}

} // verus!
