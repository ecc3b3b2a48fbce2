//! A map from strings to values, kept as a list of pairs in which no key
//! occurs twice.
//!
//! The hash map of the standard library is specified only for key types
//! that are known to hash and compare as a map needs, and `String` is not
//! among them: nothing could be proved of a hash map with string keys. This
//! list states as its invariant what such a map gives, that every key maps to
//! one value, and proves its operations against `Map`.

use vstd::prelude::*;

verus! {

/// The map that a sequence of pairs stands for: each pair maps the text of
/// its key to its value.
pub open spec fn pairs_to_map<V>(pairs: Seq<(String, V)>) -> Map<Seq<char>, V>
    decreases pairs.len(),
{
    if pairs.len() == 0 {
        Map::empty()
    } else {
        pairs_to_map(pairs.drop_last()).insert(pairs.last().0@, pairs.last().1)
    }
}

/// Whether no two pairs have keys of the same text.
pub open spec fn has_distinct_keys<V>(pairs: Seq<(String, V)>) -> bool {
    forall|i: int, j: int|
        0 <= i < j < pairs.len() ==> (#[trigger] pairs[i]).0@ != (#[trigger] pairs[j]).0@
}

/// The keys of the map are the texts of the keys of the pairs, and there
/// are as many as pairs; each pair's key maps to that pair's value.
pub proof fn lemma_pairs_to_map<V>(pairs: Seq<(String, V)>)
    requires
        has_distinct_keys(pairs),
    ensures
        pairs_to_map(pairs).dom().finite(),
        pairs_to_map(pairs).dom().len() == pairs.len(),
        forall|key: Seq<char>|
            pairs_to_map(pairs).contains_key(key) <==> exists|i: int|
                0 <= i < pairs.len() && (#[trigger] pairs[i]).0@ == key,
        forall|i: int|
            0 <= i < pairs.len() ==> pairs_to_map(pairs).contains_key((#[trigger] pairs[i]).0@)
                && pairs_to_map(pairs)[pairs[i].0@] == pairs[i].1,
    decreases pairs.len(),
{
    if pairs.len() > 0 {
        let front = pairs.drop_last();
        let last = pairs.last();
        assert forall|i: int, j: int| 0 <= i < j < front.len() implies (#[trigger] front[i]).0@ != (
        #[trigger] front[j]).0@ by {
            assert(front[i] == pairs[i]);
            assert(front[j] == pairs[j]);
        }
        lemma_pairs_to_map(front);
        assert(!pairs_to_map(front).contains_key(last.0@)) by {
            if pairs_to_map(front).contains_key(last.0@) {
                let i = choose|i: int| 0 <= i < front.len() && (#[trigger] front[i]).0@ == last.0@;
                assert(front[i] == pairs[i]);
                assert(pairs[pairs.len() - 1] == last);
            }
        }
        assert forall|key: Seq<char>| pairs_to_map(pairs).contains_key(key) implies exists|i: int|
            0 <= i < pairs.len() && (#[trigger] pairs[i]).0@ == key by {
            if key == last.0@ {
                assert(pairs[pairs.len() - 1].0@ == key);
            } else {
                let i = choose|i: int| 0 <= i < front.len() && (#[trigger] front[i]).0@ == key;
                assert(front[i] == pairs[i]);
            }
        }
        assert forall|i: int| 0 <= i < pairs.len() implies pairs_to_map(pairs).contains_key(
            (#[trigger] pairs[i]).0@,
        ) && pairs_to_map(pairs)[pairs[i].0@] == pairs[i].1 by {
            if i < front.len() {
                assert(front[i] == pairs[i]);
                assert(pairs[pairs.len() - 1] == last);
            }
        }
        assert forall|key: Seq<char>|
            (exists|i: int| 0 <= i < pairs.len() && (#[trigger] pairs[i]).0@ == key)
                implies pairs_to_map(pairs).contains_key(key) by {
            let i = choose|i: int| 0 <= i < pairs.len() && (#[trigger] pairs[i]).0@ == key;
            assert(pairs_to_map(pairs).contains_key(pairs[i].0@));
        }
    }
}

/// Taking the pair at place `at` out leaves the keys distinct, and takes
/// its key out of the map.
pub proof fn lemma_without_pair<V>(pairs: Seq<(String, V)>, at: int)
    requires
        has_distinct_keys(pairs),
        0 <= at < pairs.len(),
    ensures
        has_distinct_keys(pairs.remove(at)),
        pairs_to_map(pairs.remove(at)) == pairs_to_map(pairs).remove(pairs[at].0@),
{
    let rest = pairs.remove(at);
    assert forall|i: int, j: int| 0 <= i < j < rest.len() implies (#[trigger] rest[i]).0@ != (
    #[trigger] rest[j]).0@ by {
        let bi = if i < at { i } else { i + 1 };
        let bj = if j < at { j } else { j + 1 };
        assert(rest[i] == pairs[bi]);
        assert(rest[j] == pairs[bj]);
    }
    lemma_pairs_to_map(pairs);
    lemma_pairs_to_map(rest);
    let smaller = pairs_to_map(pairs).remove(pairs[at].0@);
    assert forall|key: Seq<char>| pairs_to_map(rest).contains_key(key) implies smaller.contains_key(
        key,
    ) && smaller[key] == pairs_to_map(rest)[key] by {
        let i = choose|i: int| 0 <= i < rest.len() && (#[trigger] rest[i]).0@ == key;
        let bi = if i < at { i } else { i + 1 };
        assert(rest[i] == pairs[bi]);
        if bi < at {
            assert(pairs[bi].0@ != pairs[at].0@);
        } else {
            assert(pairs[at].0@ != pairs[bi].0@);
        }
    }
    assert forall|key: Seq<char>| smaller.contains_key(key) implies pairs_to_map(rest).contains_key(
        key,
    ) by {
        let b = choose|b: int| 0 <= b < pairs.len() && (#[trigger] pairs[b]).0@ == key;
        let i = if b < at { b } else { b - 1 };
        assert(rest[i] == pairs[b]);
    }
    assert(pairs_to_map(rest) =~= smaller);
}

/// Adding a pair whose key is new leaves the keys distinct.
pub proof fn lemma_with_pair<V>(pairs: Seq<(String, V)>, pair: (String, V))
    requires
        has_distinct_keys(pairs),
        !pairs_to_map(pairs).contains_key(pair.0@),
    ensures
        has_distinct_keys(pairs.push(pair)),
        pairs_to_map(pairs.push(pair)) == pairs_to_map(pairs).insert(pair.0@, pair.1),
{
    let more = pairs.push(pair);
    lemma_pairs_to_map(pairs);
    assert forall|i: int, j: int| 0 <= i < j < more.len() implies (#[trigger] more[i]).0@ != (
    #[trigger] more[j]).0@ by {
        assert(more[i] == pairs[i]);
        if j < pairs.len() {
            assert(more[j] == pairs[j]);
        } else {
            assert(pairs_to_map(pairs).contains_key(pairs[i].0@));
        }
    }
    assert(more.drop_last() == pairs);
}

/// A map from strings to values.
pub struct KeyedList<V> {
    pairs: Vec<(String, V)>,
}

impl<V> View for KeyedList<V> {
    type V = Map<Seq<char>, V>;

    closed spec fn view(&self) -> Map<Seq<char>, V> {
        pairs_to_map(self.pairs@)
    }
}

impl<V> KeyedList<V> {
    #[verifier::type_invariant]
    spec fn no_key_twice(self) -> bool {
        has_distinct_keys(self.pairs@)
    }

    /// The texts of the keys, in the order in which the list holds them.
    pub closed spec fn keys(&self) -> Seq<Seq<char>> {
        Seq::new(self.pairs@.len(), |i: int| self.pairs@[i].0@)
    }

    /// The empty map.
    pub fn new() -> (list: Self)
        ensures
            list@ == Map::<Seq<char>, V>::empty(),
            list.keys() == Seq::<Seq<char>>::empty(),
    {
        let list = KeyedList { pairs: Vec::new() };
        assert(list.keys() == Seq::<Seq<char>>::empty());
        list
    }

    /// The empty map, with room for `capacity` pairs.
    pub fn with_capacity(capacity: usize) -> (list: Self)
        ensures
            list@ == Map::<Seq<char>, V>::empty(),
            list.keys() == Seq::<Seq<char>>::empty(),
    {
        let list = KeyedList { pairs: Vec::with_capacity(capacity) };
        assert(list.keys() == Seq::<Seq<char>>::empty());
        list
    }

    /// The number of keys. The keys of the list are the keys of the map,
    /// each once.
    pub fn len(&self) -> (count: usize)
        ensures
            self@.dom().finite(),
            count == self@.dom().len(),
            count == self.keys().len(),
            forall|i: int, j: int|
                0 <= i < j < self.keys().len() ==> #[trigger] self.keys()[i] != #[trigger] self.keys()[j],
            forall|key: Seq<char>| self@.contains_key(key) <==> self.keys().contains(key),
    {
        proof {
            use_type_invariant(self);
            lemma_pairs_to_map(self.pairs@);
            assert forall|key: Seq<char>| self@.contains_key(key) implies self.keys().contains(
                key,
            ) by {
                let i = choose|i: int|
                    0 <= i < self.pairs@.len() && (#[trigger] self.pairs@[i]).0@ == key;
                assert(self.keys()[i] == key);
            }
            assert forall|key: Seq<char>| self.keys().contains(key) implies self@.contains_key(
                key,
            ) by {
                let i = choose|i: int| 0 <= i < self.keys().len() && self.keys()[i] == key;
                assert(self.pairs@[i].0@ == key);
            }
            assert forall|i: int, j: int| 0 <= i < j < self.keys().len() implies #[trigger] self.keys()[i]
                != #[trigger] self.keys()[j] by {
                assert(self.pairs@[i].0@ != self.pairs@[j].0@);
            }
        }
        self.pairs.len()
    }

    /// The key at place `i`, and the value it maps to.
    pub fn pair_at(&self, i: usize) -> (pair: (&String, &V))
        requires
            i < self.keys().len(),
        ensures
            pair.0@ == self.keys()[i as int],
            self@.contains_key(pair.0@),
            *pair.1 == self@[pair.0@],
    {
        proof {
            use_type_invariant(self);
            lemma_pairs_to_map(self.pairs@);
        }
        let pair = &self.pairs[i];
        (&pair.0, &pair.1)
    }

    /// The place of `key` among the pairs, if it is there.
    fn position(pairs: &Vec<(String, V)>, key: &String) -> (place: Option<usize>)
        ensures
            match place {
                Some(i) => i < pairs@.len() && pairs@[i as int].0@ == key@,
                None => forall|i: int| 0 <= i < pairs@.len() ==> (#[trigger] pairs@[i]).0@ != key@,
            },
    {
        let mut i: usize = 0;
        while i < pairs.len()
            invariant
                i <= pairs@.len(),
                forall|k: int| 0 <= k < i ==> (#[trigger] pairs@[k]).0@ != key@,
            decreases pairs@.len() - i,
        {
            if pairs[i].0 == *key {
                return Some(i);
            }
            i += 1;
        }
        None
    }

    /// The value that `key` maps to, if it maps to one.
    pub fn get(&self, key: &str) -> (value: Option<&V>)
        ensures
            value == if self@.contains_key(key@) {
                Some(&self@[key@])
            } else {
                None
            },
    {
        proof {
            use_type_invariant(self);
            lemma_pairs_to_map(self.pairs@);
        }
        let owned = key.to_string();
        match Self::position(&self.pairs, &owned) {
            Some(i) => Some(&self.pairs[i].1),
            None => None,
        }
    }

    /// Maps `key` to `value`, and returns the value that it mapped to
    /// before, if it mapped to one.
    pub fn insert(&mut self, key: String, value: V) -> (previous: Option<V>)
        ensures
            final(self)@ == old(self)@.insert(key@, value),
            previous == if old(self)@.contains_key(key@) {
                Some(old(self)@[key@])
            } else {
                None::<V>
            },
    {
        proof {
            use_type_invariant(&*self);
            lemma_pairs_to_map(self.pairs@);
        }
        let mut pairs = Vec::new();
        core::mem::swap(&mut pairs, &mut self.pairs);
        let ghost before = pairs@;
        let previous = match Self::position(&pairs, &key) {
            Some(i) => {
                proof {
                    lemma_without_pair(before, i as int);
                }
                let (_, old_value) = pairs.remove(i);
                Some(old_value)
            },
            None => None,
        };
        proof {
            lemma_with_pair(pairs@, (key, value));
            assert(pairs_to_map(before).remove(key@).insert(key@, value) =~= pairs_to_map(
                before,
            ).insert(key@, value));
            if previous is None {
                assert(pairs_to_map(before).remove(key@) =~= pairs_to_map(before));
            }
        }
        pairs.push((key, value));
        self.pairs = pairs;
        previous
    }

    /// Takes `key` out of the map, and returns the value that it mapped to,
    /// if it mapped to one.
    pub fn remove(&mut self, key: &str) -> (previous: Option<V>)
        ensures
            final(self)@ == old(self)@.remove(key@),
            previous == if old(self)@.contains_key(key@) {
                Some(old(self)@[key@])
            } else {
                None::<V>
            },
    {
        proof {
            use_type_invariant(&*self);
            lemma_pairs_to_map(self.pairs@);
        }
        let owned = key.to_string();
        let mut pairs = Vec::new();
        core::mem::swap(&mut pairs, &mut self.pairs);
        let ghost before = pairs@;
        let previous = match Self::position(&pairs, &owned) {
            Some(i) => {
                proof {
                    lemma_without_pair(before, i as int);
                }
                let (_, old_value) = pairs.remove(i);
                Some(old_value)
            },
            None => {
                proof {
                    assert(pairs_to_map(before).remove(key@) =~= pairs_to_map(before));
                }
                None
            },
        };
        self.pairs = pairs;
        previous
    }

    /// Takes every key out of the map.
    pub fn clear(&mut self)
        ensures
            final(self)@ == Map::<Seq<char>, V>::empty(),
    {
        self.pairs = Vec::new();
    }
}

} // verus!
