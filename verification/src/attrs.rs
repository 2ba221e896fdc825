//! Attribute maps for tags: string keys to string values, where a later
//! insertion for a key overrides an earlier one (map semantics).
//!
//! The map is backed by an insertion log; its view is the `Map` obtained by
//! folding the log left to right, so the last entry for a key wins.

use vstd::prelude::*;
use crate::text::str_eq;

verus! {

/// The map described by an association log: entries folded left to right,
/// a later entry for a key overriding an earlier one.
pub open spec fn assoc_map<Vm>(ps: Seq<(Seq<char>, Vm)>) -> Map<Seq<char>, Vm>
    decreases ps.len(),
{
    if ps.len() == 0 {
        Map::empty()
    } else {
        assoc_map(ps.drop_last()).insert(ps.last().0, ps.last().1)
    }
}

/// The association log of a vector of pairs, at the level of views.
pub open spec fn assoc_view<T: View>(ps: Seq<(String, T)>) -> Seq<(Seq<char>, T::V)> {
    Seq::new(ps.len(), |i: int| (ps[i].0@, ps[i].1@))
}

/// A key that occurs nowhere in the log is not in the map.
pub proof fn lemma_assoc_map_absent<Vm>(ps: Seq<(Seq<char>, Vm)>, k: Seq<char>)
    requires
        forall|i: int| 0 <= i < ps.len() ==> (#[trigger] ps[i]).0 != k,
    ensures
        !assoc_map(ps).contains_key(k),
    decreases ps.len(),
{
    if ps.len() > 0 {
        lemma_assoc_map_absent(ps.drop_last(), k);
    }
}

/// The map's value for a key is the value of the last log entry for it.
pub proof fn lemma_assoc_map_at<Vm>(ps: Seq<(Seq<char>, Vm)>, i: int)
    requires
        0 <= i < ps.len(),
        forall|j: int| i < j < ps.len() ==> (#[trigger] ps[j]).0 != ps[i].0,
    ensures
        assoc_map(ps).contains_key(ps[i].0),
        assoc_map(ps)[ps[i].0] == ps[i].1,
    decreases ps.len(),
{
    if i == ps.len() - 1 {
    } else {
        lemma_assoc_map_at(ps.drop_last(), i);
    }
}

/// Every value in the map comes from some entry of the log.
pub proof fn lemma_assoc_map_from_log<Vm>(ps: Seq<(Seq<char>, Vm)>, k: Seq<char>)
    requires
        assoc_map(ps).contains_key(k),
    ensures
        exists|i: int| 0 <= i < ps.len() && #[trigger] ps[i] == (k, assoc_map(ps)[k]),
    decreases ps.len(),
{
    if ps.len() > 0 {
        if ps.last().0 == k {
            assert(ps[ps.len() - 1] == (k, assoc_map(ps)[k]));
        } else {
            lemma_assoc_map_from_log(ps.drop_last(), k);
            let i = choose|i: int| 0 <= i < ps.drop_last().len()
                && #[trigger] ps.drop_last()[i] == (k, assoc_map(ps.drop_last())[k]);
            assert(ps[i] == (k, assoc_map(ps)[k]));
        }
    }
}

/// Attributes of a tag. Later insertions for a key override earlier ones.
#[derive(Debug, PartialEq)]
pub struct AttrMap {
    log: Vec<(String, String)>,
}

impl View for AttrMap {
    type V = Map<Seq<char>, Seq<char>>;

    closed spec fn view(&self) -> Map<Seq<char>, Seq<char>> {
        assoc_map(assoc_view(self.log@))
    }
}

impl AttrMap {
    pub fn new() -> (m: AttrMap)
        ensures
            m@ == Map::<Seq<char>, Seq<char>>::empty(),
    {
        AttrMap { log: Vec::new() }
    }

    pub fn insert(&mut self, key: String, value: String)
        ensures
            final(self)@ == old(self)@.insert(key@, value@),
    {
        let ghost k = key@;
        let ghost v = value@;
        let ghost before = assoc_view(self.log@);
        self.log.push((key, value));
        proof {
            assert(assoc_view(self.log@).drop_last() =~= before);
            assert(assoc_view(self.log@).last() == (k, v));
        }
    }

    pub fn get<'a>(&'a self, key: &str) -> (r: Option<&'a String>)
        ensures
            match r {
                Some(v) => self@.contains_key(key@) && v@ == self@[key@],
                None => !self@.contains_key(key@),
            },
    {
        let mut i: usize = self.log.len();
        while i > 0
            invariant
                i <= self.log.len(),
                forall|j: int| i <= j < self.log@.len()
                    ==> (#[trigger] assoc_view(self.log@)[j]).0 != key@,
            decreases i,
        {
            i = i - 1;
            if str_eq(self.log[i].0.as_str(), key) {
                proof {
                    lemma_assoc_map_at(assoc_view(self.log@), i as int);
                }
                return Some(&self.log[i].1);
            }
        }
        proof {
            lemma_assoc_map_absent(assoc_view(self.log@), key@);
        }
        None
    }

    /// The logged entries, oldest first. A later entry for a key overrides
    /// an earlier one; folding them left to right yields the map.
    pub fn entries(&self) -> (r: &Vec<(String, String)>)
        ensures
            assoc_map(assoc_view(r@)) == self@,
    {
        &self.log
    }

    pub fn is_empty(&self) -> (r: bool)
        ensures
            r == (self@ == Map::<Seq<char>, Seq<char>>::empty()),
    {
        if self.log.len() == 0 {
            proof {
                assert(self@ =~= Map::<Seq<char>, Seq<char>>::empty());
            }
            true
        } else {
            proof {
                let ps = assoc_view(self.log@);
                lemma_assoc_map_at(ps, ps.len() - 1);
                assert(self@.contains_key(ps.last().0));
            }
            false
        }
    }
}

} // verus!
