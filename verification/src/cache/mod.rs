//! A cache of values under string keys, with an optional bound on the number
//! of entries.

pub mod keyed_list;

use crate::cache::keyed_list::has_distinct_keys;
use crate::cache::keyed_list::KeyedList;
use vstd::prelude::*;

verus! {

/// Whether the counts in `pairs` never fall from one pair to the next.
pub open spec fn counts_ascend(pairs: Seq<(String, usize)>) -> bool {
    forall|i: int, j: int| 0 <= i < j < pairs.len() ==> (#[trigger] pairs[i]).1 <= (#[trigger] pairs[j]).1
}

/// Whether taking the keys `evicted` out is a fair eviction of `number`
/// keys: they are `number` keys that have a count, and none of them has a
/// greater count than a key that stays.
pub open spec fn is_eviction(
    counts: Map<Seq<char>, usize>,
    evicted: Set<Seq<char>>,
    number: int,
) -> bool {
    &&& evicted.finite()
    &&& evicted.len() == number
    &&& evicted.subset_of(counts.dom())
    &&& forall|gone: Seq<char>, kept: Seq<char>|
        #![trigger evicted.contains(gone), counts.contains_key(kept)]
        evicted.contains(gone) && counts.contains_key(kept) && !evicted.contains(kept)
            ==> counts[gone] <= counts[kept]
}

/// Taking keys that all hold an entry out leaves as many entries fewer as
/// keys were taken.
pub proof fn lemma_len_without_keys<T>(entries: Map<Seq<char>, T>, gone: Set<Seq<char>>)
    requires
        entries.dom().finite(),
        gone.finite(),
        gone.subset_of(entries.dom()),
    ensures
        entries.remove_keys(gone).dom().finite(),
        entries.remove_keys(gone).len() == entries.len() - gone.len(),
    decreases gone.len(),
{
    if gone.is_empty() {
        assert(entries.remove_keys(gone) =~= entries);
    } else {
        let key = gone.choose();
        lemma_len_without_keys(entries.remove(key), gone.remove(key));
        assert(entries.remove(key).remove_keys(gone.remove(key)) =~= entries.remove_keys(gone));
    }
}

/// The keys of the first `number` pairs.
pub open spec fn leading_keys(pairs: Seq<(String, usize)>, number: int) -> Set<Seq<char>> {
    Set::new(|key: Seq<char>| exists|j: int| 0 <= j < number && (#[trigger] pairs[j]).0@ == key)
}

/// Pairs rearranged have distinct keys where the pairs they were made from
/// have, and each of them is one of those.
proof fn lemma_rearranged_pairs(unsorted: Seq<(String, usize)>, sorted: Seq<(String, usize)>)
    requires
        has_distinct_keys(unsorted),
        sorted.to_multiset() == unsorted.to_multiset(),
    ensures
        sorted.len() == unsorted.len(),
        has_distinct_keys(sorted),
        forall|j: int| 0 <= j < sorted.len() ==> unsorted.contains(#[trigger] sorted[j]),
        forall|a: int| 0 <= a < unsorted.len() ==> sorted.contains(#[trigger] unsorted[a]),
{
    broadcast use vstd::seq_lib::group_to_multiset_ensures;

    unsorted.to_multiset_ensures();
    sorted.to_multiset_ensures();
    assert forall|j: int| 0 <= j < sorted.len() implies unsorted.contains(#[trigger] sorted[j]) by {
        assert(sorted.contains(sorted[j]));
        assert(sorted.to_multiset().count(sorted[j]) > 0);
    }
    assert forall|a: int| 0 <= a < unsorted.len() implies sorted.contains(#[trigger] unsorted[a]) by {
        assert(unsorted.contains(unsorted[a]));
        assert(unsorted.to_multiset().count(unsorted[a]) > 0);
    }
    assert(unsorted.no_duplicates()) by {
        assert forall|i: int, j: int| 0 <= i < unsorted.len() && 0 <= j < unsorted.len() && i != j implies unsorted[i]
            != unsorted[j] by {
            if i < j {
                assert(unsorted[i].0@ != unsorted[j].0@);
            } else {
                assert(unsorted[j].0@ != unsorted[i].0@);
            }
        }
    }
    unsorted.lemma_multiset_has_no_duplicates();
    sorted.lemma_multiset_has_no_duplicates_conv();
    assert forall|i: int, j: int| 0 <= i < j < sorted.len() implies (#[trigger] sorted[i]).0@ != (
    #[trigger] sorted[j]).0@ by {
        assert(unsorted.contains(sorted[i]));
        assert(unsorted.contains(sorted[j]));
        let a = choose|a: int| 0 <= a < unsorted.len() && unsorted[a] == sorted[i];
        let b = choose|b: int| 0 <= b < unsorted.len() && unsorted[b] == sorted[j];
        assert(sorted[i] != sorted[j]);
        if a < b {
            assert(unsorted[a].0@ != unsorted[b].0@);
        } else {
            assert(unsorted[b].0@ != unsorted[a].0@);
        }
    }
}

/// The keys of the first `number` of the sorted pairs are a fair eviction
/// of `number` keys.
proof fn lemma_leading_keys_are_eviction(
    counts: Map<Seq<char>, usize>,
    unsorted: Seq<(String, usize)>,
    sorted: Seq<(String, usize)>,
    number: int,
)
    requires
        has_distinct_keys(unsorted),
        forall|a: int|
            0 <= a < unsorted.len() ==> counts.contains_key((#[trigger] unsorted[a]).0@)
                && counts[unsorted[a].0@] == unsorted[a].1,
        forall|key: Seq<char>|
            counts.contains_key(key) ==> exists|a: int|
                0 <= a < unsorted.len() && (#[trigger] unsorted[a]).0@ == key,
        sorted.to_multiset() == unsorted.to_multiset(),
        counts_ascend(sorted),
        0 <= number <= sorted.len(),
    ensures
        is_eviction(counts, leading_keys(sorted, number), number),
{
    lemma_rearranged_pairs(unsorted, sorted);
    let evicted = leading_keys(sorted, number);
    let keys = Seq::new(number as nat, |j: int| sorted[j].0@);
    assert(keys.no_duplicates()) by {
        assert forall|i: int, j: int| 0 <= i < keys.len() && 0 <= j < keys.len() && i != j implies keys[i]
            != keys[j] by {
            if i < j {
                assert(sorted[i].0@ != sorted[j].0@);
            } else {
                assert(sorted[j].0@ != sorted[i].0@);
            }
        }
    }
    assert(keys.to_set() =~= evicted) by {
        assert forall|key: Seq<char>| keys.to_set().contains(key) implies evicted.contains(key) by {
            let j = choose|j: int| 0 <= j < keys.len() && keys[j] == key;
            assert(sorted[j].0@ == key);
        }
        assert forall|key: Seq<char>| evicted.contains(key) implies keys.to_set().contains(key) by {
            let j = choose|j: int| 0 <= j < number && (#[trigger] sorted[j]).0@ == key;
            assert(keys[j] == key);
        }
    }
    keys.unique_seq_to_set();
    vstd::seq_lib::seq_to_set_is_finite(keys);
    assert forall|key: Seq<char>| evicted.contains(key) implies counts.dom().contains(key) by {
        let j = choose|j: int| 0 <= j < number && (#[trigger] sorted[j]).0@ == key;
        assert(unsorted.contains(sorted[j]));
        let a = choose|a: int| 0 <= a < unsorted.len() && unsorted[a] == sorted[j];
        assert(counts.contains_key(unsorted[a].0@));
    }
    assert forall|gone: Seq<char>, kept: Seq<char>|
        #![trigger evicted.contains(gone), counts.contains_key(kept)]
        evicted.contains(gone) && counts.contains_key(kept) && !evicted.contains(
            kept,
        ) implies counts[gone] <= counts[kept] by {
        let j = choose|j: int| 0 <= j < number && (#[trigger] sorted[j]).0@ == gone;
        assert(unsorted.contains(sorted[j]));
        let a = choose|a: int| 0 <= a < unsorted.len() && unsorted[a] == sorted[j];
        assert(counts[unsorted[a].0@] == unsorted[a].1);
        let b = choose|b: int| 0 <= b < unsorted.len() && (#[trigger] unsorted[b]).0@ == kept;
        assert(counts[unsorted[b].0@] == unsorted[b].1);
        assert(sorted.contains(unsorted[b]));
        let c = choose|c: int| 0 <= c < sorted.len() && sorted[c] == unsorted[b];
        if c < number {
            assert(sorted[c].0@ == kept);
            assert(evicted.contains(kept));
        }
        assert(sorted[j].1 <= sorted[c].1);
    }
}

/// Sorts `pairs` by their counts with `sort_unstable_by_key` of the standard
/// library. Of that function this states what its documentation says: the
/// pairs are rearranged, none is lost and none is added, and afterwards the
/// counts ascend; in which order pairs of equal count come is left open.
#[verifier::external_body]
fn sort_by_count(pairs: &mut Vec<(String, usize)>)
    ensures
        final(pairs)@.to_multiset() == old(pairs)@.to_multiset(),
        counts_ascend(final(pairs)@),
{
    pairs.sort_unstable_by_key(|k| k.1);
}

/// Values under string keys. A cache made with a bound also keeps, for each
/// key that came in, a count of its accesses; `trim` takes out the keys with
/// the smallest counts until the cache is within its bound.
pub struct Cache<T> {
    entries: KeyedList<T>,
    accesses: KeyedList<usize>,
    max_entries: Option<usize>,
}

impl<T> View for Cache<T> {
    type V = Map<Seq<char>, T>;

    /// The entries: the value under each key.
    closed spec fn view(&self) -> Map<Seq<char>, T> {
        self.entries@
    }
}

impl<T> Cache<T> {
    /// The access count kept for each key that has one.
    pub closed spec fn access_counts(&self) -> Map<Seq<char>, usize> {
        self.accesses@
    }

    /// The bound on the number of entries, if the cache has one.
    pub closed spec fn max_entries(&self) -> Option<usize> {
        self.max_entries
    }

    /// An empty cache without a bound.
    pub fn new() -> (cache: Self)
        ensures
            cache@ == Map::<Seq<char>, T>::empty(),
            cache.access_counts() == Map::<Seq<char>, usize>::empty(),
            cache.max_entries() is None,
    {
        Self::default()
    }

    /// An empty cache with the bound `value`.
    pub fn with_max_entries(value: usize) -> (cache: Self)
        ensures
            cache@ == Map::<Seq<char>, T>::empty(),
            cache.access_counts() == Map::<Seq<char>, usize>::empty(),
            cache.max_entries() == Some(value),
    {
        Self {
            entries: KeyedList::with_capacity(value),
            max_entries: Some(value),
            accesses: KeyedList::with_capacity(value),
        }
    }

    /// The number of entries.
    pub fn len(&self) -> (count: usize)
        ensures
            self@.dom().finite(),
            count == self@.len(),
    {
        self.entries.len()
    }

    /// Whether `trim` has enough access counts to go by: the cache has no
    /// bound, or as many keys have a count as entries are over the bound.
    pub open spec fn can_trim(&self) -> bool {
        self.max_entries() matches Some(limit) ==> self@.len() - limit
            <= self.access_counts().len()
    }

    /// Brings a cache that holds more entries than its bound back to the
    /// bound: as many keys as it is over are taken out, with their entries
    /// and counts, and no key that goes has a greater access count than one
    /// that stays. A cache without a bound, or within it, stays as it is.
    /// Where every key with a count holds an entry, the cache then holds
    /// exactly as many entries as its bound.
    pub fn trim(&mut self)
        requires
            old(self).can_trim(),
        ensures
            final(self).max_entries() == old(self).max_entries(),
            match old(self).max_entries() {
                Some(limit) if limit < old(self)@.len() => exists|evicted: Set<Seq<char>>|
                    {
                        &&& #[trigger] is_eviction(
                            old(self).access_counts(),
                            evicted,
                            old(self)@.len() - limit,
                        )
                        &&& final(self)@ == old(self)@.remove_keys(evicted)
                        &&& final(self).access_counts() == old(self).access_counts().remove_keys(
                            evicted,
                        )
                    },
                _ => final(self)@ == old(self)@ && final(self).access_counts() == old(
                    self,
                ).access_counts(),
            },
            old(self).max_entries() is Some && old(self).max_entries().unwrap() < old(self)@.len()
                && old(self).access_counts().dom().subset_of(old(self)@.dom())
                ==> final(self)@.len() == old(self).max_entries().unwrap(),
    {
        if let Some(limit) = self.max_entries {
            let len = self.len();
            if limit < len {
                let to_remove = len - limit;
                let counted = self.accesses.len();
                let ghost counts = self.accesses@;
                let ghost keys = self.accesses.keys();
                let mut vec: Vec<(String, usize)> = Vec::with_capacity(counted);
                let mut i: usize = 0;
                while i < counted
                    invariant
                        i <= counted,
                        counted == keys.len(),
                        keys == self.accesses.keys(),
                        counts == self.accesses@,
                        vec@.len() == i,
                        forall|k: int|
                            0 <= k < i ==> (#[trigger] vec@[k]).0@ == keys[k] && counts.contains_key(
                                keys[k],
                            ) && counts[keys[k]] == vec@[k].1,
                    decreases counted - i,
                {
                    let (k, v) = self.accesses.pair_at(i);
                    vec.push((k.clone(), *v));
                    i += 1;
                }
                let ghost unsorted = vec@;
                sort_by_count(&mut vec);
                proof {
                    assert(has_distinct_keys(unsorted)) by {
                        assert forall|a: int, b: int| 0 <= a < b < unsorted.len() implies (
                        #[trigger] unsorted[a]).0@ != (#[trigger] unsorted[b]).0@ by {
                            assert(keys[a] != keys[b]);
                        }
                    }
                    assert forall|key: Seq<char>| counts.contains_key(key) implies exists|a: int|
                        0 <= a < unsorted.len() && (#[trigger] unsorted[a]).0@ == key by {
                        assert(keys.contains(key));
                        let a = choose|a: int| 0 <= a < keys.len() && keys[a] == key;
                        assert(unsorted[a].0@ == key);
                    }
                    lemma_rearranged_pairs(unsorted, vec@);
                    lemma_leading_keys_are_eviction(counts, unsorted, vec@, to_remove as int);
                }
                let ghost entries = self.entries@;
                let mut i: usize = 0;
                while i < to_remove
                    invariant
                        i <= to_remove <= vec@.len(),
                        self.max_entries == old(self).max_entries,
                        self.entries@ == entries.remove_keys(leading_keys(vec@, i as int)),
                        self.accesses@ == counts.remove_keys(leading_keys(vec@, i as int)),
                    decreases to_remove - i,
                {
                    let k = &vec[i].0;
                    self.entries.remove(k.as_str());
                    self.accesses.remove(k.as_str());
                    proof {
                        let done = leading_keys(vec@, i as int);
                        let more = leading_keys(vec@, i + 1);
                        assert(more =~= done.insert(vec@[i as int].0@)) by {
                            assert forall|key: Seq<char>| more.contains(key) implies done.insert(
                                vec@[i as int].0@,
                            ).contains(key) by {
                                let j = choose|j: int|
                                    0 <= j < i + 1 && (#[trigger] vec@[j]).0@ == key;
                                if j < i {
                                    assert(done.contains(key));
                                }
                            }
                        }
                        assert(entries.remove_keys(done).remove(vec@[i as int].0@)
                            =~= entries.remove_keys(more));
                        assert(counts.remove_keys(done).remove(vec@[i as int].0@)
                            =~= counts.remove_keys(more));
                    }
                    i += 1;
                }
                proof {
                    let evicted = leading_keys(vec@, to_remove as int);
                    assert(is_eviction(counts, evicted, old(self)@.len() - limit));
                    if counts.dom().subset_of(entries.dom()) {
                        lemma_len_without_keys(entries, evicted);
                    }
                }
            }
        }
    }

    /// Puts `value` under `key`, and returns the value that was there, if
    /// there was one. In a cache with a bound the access count of `key`
    /// starts again at zero.
    pub fn insert(&mut self, key: &str, value: T) -> (previous: Option<T>)
        ensures
            final(self)@ == old(self)@.insert(key@, value),
            previous == if old(self)@.contains_key(key@) {
                Some(old(self)@[key@])
            } else {
                None::<T>
            },
            final(self).max_entries() == old(self).max_entries(),
            final(self).access_counts() == if old(self).max_entries() is Some {
                old(self).access_counts().insert(key@, 0)
            } else {
                old(self).access_counts()
            },
    {
        if self.max_entries.is_some() {
            self.accesses.insert(key.to_string(), 0);
        }
        self.entries.insert(key.to_string(), value)
    }

    /// The value under `key`, if there is one.
    pub fn get(&self, key: &str) -> (value: Option<&T>)
        ensures
            value == if self@.contains_key(key@) {
                Some(&self@[key@])
            } else {
                None
            },
    {
        self.entries.get(key)
    }

    /// Takes the entry under `key` out, with its access count, and returns
    /// the value that was there, if there was one.
    pub fn remove(&mut self, key: &str) -> (previous: Option<T>)
        ensures
            final(self)@ == old(self)@.remove(key@),
            previous == if old(self)@.contains_key(key@) {
                Some(old(self)@[key@])
            } else {
                None::<T>
            },
            final(self).max_entries() == old(self).max_entries(),
            final(self).access_counts() == old(self).access_counts().remove(key@),
    {
        self.accesses.remove(key);
        self.entries.remove(key)
    }

    /// Takes every entry out. The access counts stay.
    pub fn clear(&mut self)
        ensures
            final(self)@ == Map::<Seq<char>, T>::empty(),
            final(self).max_entries() == old(self).max_entries(),
            final(self).access_counts() == old(self).access_counts(),
    {
        self.entries.clear()
    }
}

impl<T> Default for Cache<T> {
    /// An empty cache without a bound.
    fn default() -> (cache: Self)
        ensures
            cache@ == Map::<Seq<char>, T>::empty(),
            cache.access_counts() == Map::<Seq<char>, usize>::empty(),
            cache.max_entries() is None,
    {
        Self { entries: KeyedList::new(), max_entries: None, accesses: KeyedList::new() }
    }
}

impl<T: Clone> Clone for Cache<T> {
    /// The copy has the same keys and the same bound; under each key stands
    /// a clone of the value. It starts without access counts.
    fn clone(&self) -> (copy: Self)
        ensures
            copy@.dom() == self@.dom(),
            forall|key: Seq<char>|
                self@.contains_key(key) ==> cloned(self@[key], #[trigger] copy@[key]),
            copy.max_entries() == self.max_entries(),
            copy.access_counts() == Map::<Seq<char>, usize>::empty(),
    {
        let mut entries: KeyedList<T> = KeyedList::new();
        let count = self.entries.len();
        let ghost keys = self.entries.keys();
        let mut i: usize = 0;
        while i < count
            invariant
                i <= count,
                count == keys.len(),
                keys == self.entries.keys(),
                forall|key: Seq<char>| self.entries@.contains_key(key) <==> keys.contains(key),
                forall|key: Seq<char>|
                    entries@.contains_key(key) <==> exists|k: int|
                        0 <= k < i && #[trigger] keys[k] == key,
                forall|key: Seq<char>|
                    entries@.contains_key(key) ==> cloned(self.entries@[key], #[trigger] entries@[key]),
            decreases count - i,
        {
            let (k, v) = self.entries.pair_at(i);
            let ghost before = entries@;
            entries.insert(k.clone(), v.clone());
            proof {
                assert forall|key: Seq<char>| entries@.contains_key(key) implies exists|k: int|
                    0 <= k < i + 1 && #[trigger] keys[k] == key by {
                    if key == keys[i as int] {
                    } else {
                        assert(before.contains_key(key));
                        let j = choose|j: int| 0 <= j < i && #[trigger] keys[j] == key;
                        assert(keys[j] == key);
                    }
                }
                assert forall|key: Seq<char>|
                    (exists|k: int| 0 <= k < i + 1 && #[trigger] keys[k] == key)
                        implies entries@.contains_key(key) by {
                    let j = choose|j: int| 0 <= j < i + 1 && #[trigger] keys[j] == key;
                    if j < i {
                        assert(before.contains_key(key));
                    }
                }
            }
            i += 1;
        }
        proof {
            assert(entries@.dom() =~= self.entries@.dom()) by {
                assert forall|key: Seq<char>| self.entries@.dom().contains(key) implies entries@.dom().contains(
                    key,
                ) by {
                    assert(keys.contains(key));
                    let j = choose|j: int| 0 <= j < keys.len() && keys[j] == key;
                    assert(keys[j] == key);
                }
                assert forall|key: Seq<char>| entries@.dom().contains(key) implies self.entries@.dom().contains(
                    key,
                ) by {
                    let j = choose|j: int| 0 <= j < count && #[trigger] keys[j] == key;
                    assert(keys.contains(key));
                }
            }
        }
        Self { entries, max_entries: self.max_entries, accesses: KeyedList::new() }
    }
}

} // verus!
