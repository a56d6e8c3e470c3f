//! A map from names to values that behaves as a hash map keyed by `String`:
//! inserting a name again replaces its value.

use vstd::prelude::*;
use crate::text::str_eq;

verus! {

/// The map that a list of insertions builds: a later insertion of a name
/// replaces an earlier one.
pub open spec fn map_of<V>(entries: Seq<(String, V)>) -> Map<Seq<char>, V>
    decreases entries.len(),
{
    if entries.len() == 0 {
        Map::empty()
    } else {
        map_of(entries.drop_last()).insert(entries.last().0@, entries.last().1)
    }
}

/// The last insertion of `k` decides its value; no later entry names `k`.
pub proof fn lemma_map_of_last<V>(entries: Seq<(String, V)>, k: Seq<char>, j: int)
    requires
        0 <= j < entries.len(),
        entries[j].0@ == k,
        forall|i: int| j < i < entries.len() ==> #[trigger] entries[i].0@ != k,
    ensures
        map_of(entries).contains_key(k),
        map_of(entries)[k] == entries[j].1,
    decreases entries.len(),
{
    if j < entries.len() - 1 {
        lemma_map_of_last(entries.drop_last(), k, j);
    }
}

/// A name that no entry carries is not in the map.
pub proof fn lemma_map_of_absent<V>(entries: Seq<(String, V)>, k: Seq<char>)
    requires
        forall|i: int| 0 <= i < entries.len() ==> #[trigger] entries[i].0@ != k,
    ensures
        !map_of(entries).contains_key(k),
    decreases entries.len(),
{
    if entries.len() > 0 {
        lemma_map_of_absent(entries.drop_last(), k);
    }
}

/// Names mapped to values; a later `insert` of a name wins.
pub struct NameMap<V> {
    entries: Vec<(String, V)>,
}

impl<V> View for NameMap<V> {
    type V = Map<Seq<char>, V>;

    closed spec fn view(&self) -> Map<Seq<char>, V> {
        map_of(self.entries@)
    }
}

impl<V> NameMap<V> {
    pub fn new() -> (r: Self)
        ensures
            r@ == Map::<Seq<char>, V>::empty(),
    {
        NameMap { entries: Vec::new() }
    }

    /// Map `k` to `v`, replacing any earlier value of `k`.
    pub fn insert(&mut self, k: String, v: V)
        ensures
            final(self)@ == old(self)@.insert(k@, v),
    {
        let ghost before = self.entries@;
        self.entries.push((k, v));
        assert(self.entries@.drop_last() =~= before);
    }

    /// Forget every name.
    pub fn clear(&mut self)
        ensures
            final(self)@ == Map::<Seq<char>, V>::empty(),
    {
        self.entries = Vec::new();
    }

    /// The value of `k`, if it has one.
    pub fn get(&self, k: &str) -> (r: Option<&V>)
        ensures
            match r {
                Some(v) => self@.contains_key(k@) && *v == self@[k@],
                None => !self@.contains_key(k@),
            },
    {
        let mut i: usize = self.entries.len();
        while i > 0
            invariant
                i <= self.entries@.len(),
                forall|j: int| i <= j < self.entries@.len() ==> #[trigger] self.entries@[j].0@ != k@,
            decreases i,
        {
            i -= 1;
            if str_eq(self.entries[i].0.as_str(), k) {
                proof {
                    lemma_map_of_last(self.entries@, k@, i as int);
                }
                return Some(&self.entries[i].1);
            }
        }
        proof {
            lemma_map_of_absent(self.entries@, k@);
        }
        None
    }

    /// Whether `k` has a value.
    pub fn contains_key(&self, k: &str) -> (r: bool)
        ensures
            r == self@.contains_key(k@),
    {
        match self.get(k) {
            Some(_) => true,
            None => false,
        }
    }
}

} // verus!
