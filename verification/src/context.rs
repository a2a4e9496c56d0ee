//! The string-to-string mapping that pre-execution hooks fill and that goes
//! to the adapter with every statement.

use crate::bindings::{bindings, lemma_bound_push, lemma_bound_reads_last, lookup};
use vstd::prelude::*;

verus! {

/// The view of every pair of strings in a sequence.
pub open spec fn pair_views(pairs: Seq<(String, String)>) -> Seq<(Seq<char>, Seq<char>)> {
    Seq::new(pairs.len(), |i: int| (pairs[i].0@, pairs[i].1@))
}

/// A copy of `pairs`.
pub fn copy_pairs(pairs: &Vec<(String, String)>) -> (r: Vec<(String, String)>)
    ensures
        pair_views(r@) == pair_views(pairs@),
{
    let mut r: Vec<(String, String)> = Vec::new();
    let mut i: usize = 0;
    while i < pairs.len()
        invariant
            i <= pairs.len(),
            pair_views(r@) == pair_views(pairs@).take(i as int),
        decreases pairs.len() - i,
    {
        let ghost before = pair_views(r@);
        let key = pairs[i].0.clone();
        let value = pairs[i].1.clone();
        r.push((key, value));
        proof {
            assert(pair_views(r@) =~= before.push((key@, value@)));
            assert(pair_views(pairs@).take(i + 1) =~= before.push((key@, value@)));
        }
        i = i + 1;
    }
    proof {
        assert(pair_views(pairs@).take(i as int) =~= pair_views(pairs@));
    }
    r
}

/// What precedes a statement on its way to the adapter: made anew for every
/// statement, filled by the pre-execution hooks only.
#[derive(Debug)]
pub struct QueryContext {
    /// The pairs in the order in which they were written. A later pair
    /// replaces an earlier one with the same key.
    pub context: Vec<(String, String)>,
}

impl View for QueryContext {
    type V = Map<Seq<char>, Seq<char>>;

    open spec fn view(&self) -> Map<Seq<char>, Seq<char>> {
        bindings(pair_views(self.context@))
    }
}

impl QueryContext {
    /// The context that binds nothing.
    pub fn new() -> (r: QueryContext)
        ensures
            r@ == Map::<Seq<char>, Seq<char>>::empty(),
    {
        let r = QueryContext { context: Vec::new() };
        proof {
            assert(pair_views(r.context@) =~= Seq::empty());
        }
        r
    }

    /// Binds `key` to `value`, whatever it was bound to.
    pub fn insert(&mut self, key: String, value: String)
        ensures
            final(self)@ == old(self)@.insert(key@, value@),
    {
        let ghost before = pair_views(self.context@);
        self.context.push((key, value));
        proof {
            assert(pair_views(self.context@) =~= before.push((key@, value@)));
            lemma_bound_push(Map::empty(), before, key@, value@);
        }
    }

    /// What `key` is bound to.
    pub fn get(&self, key: &str) -> (r: Option<&String>)
        ensures
            match r {
                Some(value) => self@.contains_key(key@) && self@[key@] == value@,
                None => !self@.contains_key(key@),
            },
    {
        let found = lookup(&self.context, key);
        proof {
            let pairs = pair_views(self.context@);
            lemma_bound_reads_last(Map::empty(), pairs, key@);
            match found {
                Some(i) => {
                    assert(pairs[i as int].0 == key@);
                    assert forall|j: int| i < j < pairs.len() implies (#[trigger] pairs[j]).0
                        != key@ by {
                        assert(self.context@[j].0@ != key@);
                    }
                },
                None => {
                    assert forall|j: int| 0 <= j < pairs.len() implies (#[trigger] pairs[j]).0
                        != key@ by {
                        assert(self.context@[j].0@ != key@);
                    }
                },
            }
        }
        match found {
            Some(i) => Some(&self.context[i].1),
            None => None,
        }
    }

    /// A context that binds what this one binds.
    pub fn duplicate(&self) -> (r: QueryContext)
        ensures
            r@ == self@,
    {
        QueryContext { context: copy_pairs(&self.context) }
    }
}

impl Default for QueryContext {
    fn default() -> (r: QueryContext)
        ensures
            r@ == Map::<Seq<char>, Seq<char>>::empty(),
    {
        QueryContext::new()
    }
}

} // verus!
