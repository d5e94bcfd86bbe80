//! A small map from strings to values, kept in a vector. It holds the
//! fields of a tag, of which there are few.
//!
//! The hash map of the standard library is no choice here: what is known of
//! it holds only for keys whose hashing is known to follow their equality,
//! and that is established for integers and booleans, not for strings.

use vstd::prelude::*;
use crate::formats::text::str_eq;

verus! {

/// Whether no key stands twice in a list of pairs.
pub open spec fn distinct_keys<T>(pairs: Seq<(Seq<char>, T)>) -> bool {
    forall|i: int, j: int|
        0 <= i < pairs.len() && 0 <= j < pairs.len() && i != j ==> (#[trigger] pairs[i]).0 != (
        #[trigger] pairs[j]).0
}

/// Whether `key` is the key of some pair of the list.
pub open spec fn has_key<T>(pairs: Seq<(Seq<char>, T)>, key: Seq<char>) -> bool {
    exists|i: int| 0 <= i < pairs.len() && (#[trigger] pairs[i]).0 == key
}

/// A place in the list at which `key` stands.
pub open spec fn place_of<T>(pairs: Seq<(Seq<char>, T)>, key: Seq<char>) -> int {
    choose|i: int| 0 <= i < pairs.len() && (#[trigger] pairs[i]).0 == key
}

/// The map that a list of pairs spells out.
pub open spec fn as_map<T>(pairs: Seq<(Seq<char>, T)>) -> Map<Seq<char>, T> {
    Map::new(|key: Seq<char>| has_key(pairs, key), |key: Seq<char>| pairs[place_of(pairs, key)].1)
}

/// Putting a pair in the place of one with the same key changes the map as
/// an insertion does, and repeats no key.
pub proof fn lemma_replace<T>(pairs: Seq<(Seq<char>, T)>, at: int, pair: (Seq<char>, T))
    requires
        distinct_keys(pairs),
        0 <= at < pairs.len(),
        pairs[at].0 == pair.0,
    ensures
        distinct_keys(pairs.update(at, pair)),
        as_map(pairs.update(at, pair)) == as_map(pairs).insert(pair.0, pair.1),
{
    let after = pairs.update(at, pair);
    assert forall|key: Seq<char>| has_key(after, key) <==> has_key(pairs, key) || key
        == pair.0 by {
        if has_key(pairs, key) {
            assert(after[place_of(pairs, key)].0 == key);
        }
    }
    assert forall|key: Seq<char>| has_key(after, key) implies as_map(after)[key] == as_map(
        pairs,
    ).insert(pair.0, pair.1)[key] by {
        assert(pairs[place_of(after, key)].0 == after[place_of(after, key)].0);
    }
}

/// Putting a pair with a new key at the end changes the map as an insertion
/// does, and repeats no key.
pub proof fn lemma_append<T>(pairs: Seq<(Seq<char>, T)>, pair: (Seq<char>, T))
    requires
        distinct_keys(pairs),
        !has_key(pairs, pair.0),
    ensures
        distinct_keys(pairs.push(pair)),
        as_map(pairs.push(pair)) == as_map(pairs).insert(pair.0, pair.1),
{
    let after = pairs.push(pair);
    assert forall|key: Seq<char>| has_key(after, key) <==> has_key(pairs, key) || key
        == pair.0 by {
        if has_key(after, key) && place_of(after, key) < pairs.len() {
            assert(pairs[place_of(after, key)].0 == key);
        }
        if has_key(pairs, key) {
            assert(after[place_of(pairs, key)].0 == key);
        }
        if key == pair.0 {
            assert(after[pairs.len() as int].0 == key);
        }
    }
    assert forall|key: Seq<char>| has_key(after, key) implies as_map(after)[key] == as_map(
        pairs,
    ).insert(pair.0, pair.1)[key] by {
        if place_of(after, key) < pairs.len() {
            assert(pairs[place_of(after, key)] == after[place_of(after, key)]);
        }
    }
}

/// Reading a list without a repeated key pair by pair: the first `n + 1`
/// pairs spell the map of the first `n` with the next pair put in, under a
/// key that was not there.
pub proof fn lemma_as_map_step<T>(pairs: Seq<(Seq<char>, T)>, n: int)
    requires
        distinct_keys(pairs),
        0 <= n < pairs.len(),
    ensures
        !as_map(pairs.take(n)).contains_key(pairs[n].0),
        as_map(pairs.take(n + 1)) == as_map(pairs.take(n)).insert(pairs[n].0, pairs[n].1),
{
    let short = pairs.take(n);
    if has_key(short, pairs[n].0) {
        assert(short[place_of(short, pairs[n].0)] == pairs[place_of(short, pairs[n].0)]);
    }
    lemma_append(short, pairs[n]);
    assert(pairs.take(n + 1) =~= short.push(pairs[n]));
}

/// The keys and values of a list of entries, each by its view.
pub open spec fn pairs_of<V: View>(entries: Seq<(String, V)>) -> Seq<(Seq<char>, V::V)> {
    Seq::new(entries.len(), |i: int| (entries[i].0@, entries[i].1@))
}

/// A map from strings to values.
pub struct Dictionary<V: View> {
    entries: Vec<(String, V)>,
}

impl<V: View> Dictionary<V> {
    #[verifier::type_invariant]
    spec fn well_formed(self) -> bool {
        distinct_keys(self.pairs())
    }

    /// The keys and values as they are stored, each by its view.
    pub closed spec fn pairs(self) -> Seq<(Seq<char>, V::V)> {
        pairs_of(self.entries@)
    }

    /// An empty dictionary.
    pub fn new() -> (d: Self)
        ensures
            d@ == Map::<Seq<char>, V::V>::empty(),
            d.pairs() == Seq::<(Seq<char>, V::V)>::empty(),
    {
        let d = Dictionary { entries: Vec::new() };
        d
    }

    /// The number of entries. No key is stored twice.
    pub fn len(&self) -> (n: usize)
        ensures
            n == self.pairs().len(),
            distinct_keys(self.pairs()),
    {
        proof {
            use_type_invariant(self);
        }
        self.entries.len()
    }

    /// The key and the value of the entry at `index`.
    pub fn entry(&self, index: usize) -> (pair: (&String, &V))
        requires
            index < self.pairs().len(),
        ensures
            (pair.0@, pair.1@) == self.pairs()[index as int],
    {
        let entry = &self.entries[index];
        (&entry.0, &entry.1)
    }

    /// Where `key` is stored.
    fn position(&self, key: &str) -> (at: Option<usize>)
        ensures
            match at {
                Some(i) => i < self.pairs().len() && self.pairs()[i as int].0 == key@,
                None => !has_key(self.pairs(), key@),
            },
    {
        let mut i: usize = 0;
        while i < self.entries.len()
            invariant
                i <= self.entries@.len(),
                forall|k: int| 0 <= k < i ==> (#[trigger] self.pairs()[k]).0 != key@,
            decreases self.entries@.len() - i,
        {
            if str_eq(self.entries[i].0.as_str(), key) {
                return Some(i);
            }
            i += 1;
        }
        None
    }

    /// The value stored under `key`.
    pub fn get(&self, key: &str) -> (value: Option<&V>)
        ensures
            match value {
                Some(v) => self@.contains_key(key@) && self@[key@] == v@,
                None => !self@.contains_key(key@),
            },
    {
        proof {
            use_type_invariant(self);
        }
        match self.position(key) {
            Some(i) => Some(&self.entries[i].1),
            None => None,
        }
    }

    /// Stores `value` under `key`, in place of what was stored there.
    pub fn insert(&mut self, key: String, value: V)
        ensures
            final(self)@ == old(self)@.insert(key@, value@),
    {
        proof {
            use_type_invariant(&*self);
        }
        let found = self.position(key.as_str());
        let ghost before = self.pairs();
        let ghost pair = (key@, value@);
        let mut entries: Vec<(String, V)> = Vec::new();
        core::mem::swap(&mut self.entries, &mut entries);
        match found {
            Some(i) => {
                proof {
                    lemma_replace(before, i as int, pair);
                }
                entries[i] = (key, value);
                assert(pairs_of(entries@) =~= before.update(i as int, pair));
            },
            None => {
                proof {
                    lemma_append(before, pair);
                }
                entries.push((key, value));
                assert(pairs_of(entries@) =~= before.push(pair));
            },
        }
        core::mem::swap(&mut self.entries, &mut entries);
    }
}

impl<V: View> View for Dictionary<V> {
    type V = Map<Seq<char>, V::V>;

    /// The map that the dictionary stands for.
    open spec fn view(&self) -> Map<Seq<char>, V::V> {
        as_map(self.pairs())
    }
}

} // verus!
