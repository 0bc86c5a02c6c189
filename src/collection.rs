use crate::store::{lemma_views_push, views};
use vstd::prelude::*;

verus! {

/// An ordered list of labels, as a query hands it back.
pub struct StringCollection(Vec<String>);

impl StringCollection {
    pub closed spec fn items(&self) -> Seq<Seq<char>> {
        views(self.0@)
    }

    pub fn new(vector: Vec<String>) -> (c: Self)
        ensures
            c.items() == views(vector@),
    {
        StringCollection(vector)
    }

    pub fn len(&self) -> (r: usize)
        ensures
            r == self.items().len(),
    {
        self.0.len()
    }

    /// The labels, in order.
    pub fn get_vector(&self) -> (r: Vec<String>)
        ensures
            views(r@) == self.items(),
    {
        let mut r: Vec<String> = Vec::new();
        let mut i: usize = 0;
        while i < self.0.len()
            invariant
                i <= self.0.len(),
                views(r@) == views(self.0@).subrange(0, i as int),
            decreases self.0.len() - i,
        {
            let w = self.0[i].clone();
            let ghost before = r@;
            r.push(w);
            proof {
                lemma_views_push(before, w);
            }
            i = i + 1;
            proof {
                assert(views(r@) =~= views(self.0@).subrange(0, i as int));
            }
        }
        proof {
            assert(views(self.0@).subrange(0, i as int) =~= views(self.0@));
        }
        r
    }
}

} // verus!
