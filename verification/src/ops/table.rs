//! A table of canned answers, keyed by values that are compared by their
//! views; the mocks of the outside services answer from it.
use vstd::prelude::*;

verus! {

/// A key that can be compared with another by its view.
pub trait TableKey: View + Sized {
    fn same_key(&self, other: &Self) -> (b: bool)
        ensures
            b == (self@ == other@),
    ;
}

impl TableKey for String {
    fn same_key(&self, other: &Self) -> (b: bool) {
        *self == *other
    }
}

impl TableKey for (String, String) {
    fn same_key(&self, other: &Self) -> (b: bool) {
        self.0 == other.0 && self.1 == other.1
    }
}

impl TableKey for (String, String, u64) {
    fn same_key(&self, other: &Self) -> (b: bool) {
        self.0 == other.0 && self.1 == other.1 && self.2 == other.2
    }
}

impl TableKey for (String, String, String) {
    fn same_key(&self, other: &Self) -> (b: bool) {
        self.0 == other.0 && self.1 == other.1 && self.2 == other.2
    }
}

impl TableKey for (String, String, String, String) {
    fn same_key(&self, other: &Self) -> (b: bool) {
        self.0 == other.0 && self.1 == other.1 && self.2 == other.2 && self.3 == other.3
    }
}

/// Answers by key; a later `insert` of a key replaces the earlier answer.
pub struct ResponseTable<K, V> {
    entries: Vec<(K, V)>,
}

/// The map that a list of insertions, in order, leaves behind.
pub open spec fn entries_map<K: View, V>(es: Seq<(K, V)>) -> Map<<K as View>::V, V>
    decreases es.len(),
{
    if es.len() == 0 {
        Map::empty()
    } else {
        entries_map(es.drop_last()).insert(es.last().0@, es.last().1)
    }
}

/// The index of the last insertion under key `k`.
pub open spec fn last_index<K: View, V>(es: Seq<(K, V)>, k: <K as View>::V) -> Option<int>
    decreases es.len(),
{
    if es.len() == 0 {
        None
    } else if es.last().0@ == k {
        Some(es.len() - 1)
    } else {
        last_index(es.drop_last(), k)
    }
}

proof fn lemma_last_index<K: View, V>(es: Seq<(K, V)>, k: <K as View>::V)
    ensures
        entries_map(es).contains_key(k) <==> last_index(es, k) is Some,
        last_index(es, k) matches Some(j) ==> 0 <= j < es.len() && es[j].0@ == k
            && entries_map(es)[k] == es[j].1,
    decreases es.len(),
{
    if es.len() > 0 {
        lemma_last_index(es.drop_last(), k);
    }
}

impl<K: View, V> View for ResponseTable<K, V> {
    type V = Map<<K as View>::V, V>;

    closed spec fn view(&self) -> Map<<K as View>::V, V> {
        entries_map(self.entries@)
    }
}

impl<K: TableKey, V> ResponseTable<K, V> {
    /// A table with no answers.
    pub fn new() -> (t: Self)
        ensures
            t@ == Map::<<K as View>::V, V>::empty(),
    {
        ResponseTable { entries: Vec::new() }
    }

    /// Records `value` as the answer for `key`, replacing an earlier one.
    pub fn insert(&mut self, key: K, value: V)
        ensures
            final(self)@ == old(self)@.insert(key@, value),
    {
        self.entries.push((key, value));
        proof {
            assert(self.entries@.drop_last() =~= old(self).entries@);
        }
    }

    /// The answer recorded for `key`, if any.
    pub fn get(&self, key: &K) -> (r: Option<&V>)
        ensures
            match r {
                Some(v) => self@.contains_key(key@) && *v == self@[key@],
                None => !self@.contains_key(key@),
            },
    {
        let ghost es = self.entries@;
        let mut i: usize = self.entries.len();
        proof {
            assert(es.take(i as int) =~= es);
        }
        while i > 0
            invariant
                es == self.entries@,
                i <= es.len(),
                last_index(es, key@) == last_index(es.take(i as int), key@),
            decreases i,
        {
            proof {
                assert(es.take(i as int).drop_last() =~= es.take(i - 1));
                assert(es.take(i as int).last() == es[i - 1]);
            }
            if self.entries[i - 1].0.same_key(key) {
                proof {
                    lemma_last_index(es, key@);
                }
                return Some(&self.entries[i - 1].1);
            }
            i = i - 1;
        }
        proof {
            lemma_last_index(es, key@);
        }
        None
    }
}

} // verus!
