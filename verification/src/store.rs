//! A flat keyed store: the one structural shape every part of the engine
//! stores its entries in. It is an association list from byte-string keys to
//! values whose sole invariant is key uniqueness; abstractly it is the map
//! from key contents to values.
use vstd::prelude::*;

verus! {

/// A keyed store with pairwise distinct byte-string keys.
pub struct Store<T> {
    /// The entries, in insertion order.
    pub entries: Vec<(Vec<u8>, T)>,
}

/// Pairwise distinct keys: the single structural invariant of a store.
pub open spec fn distinct_keys<T>(s: Seq<(Vec<u8>, T)>) -> bool {
    forall|i: int, j: int| 0 <= i < j < s.len() ==> s[i].0@ != s[j].0@
}

/// The map described by an association list; with distinct keys the order
/// of the entries is irrelevant.
pub open spec fn assoc_map<T>(s: Seq<(Vec<u8>, T)>) -> Map<Seq<u8>, T>
    decreases s.len(),
{
    if s.len() == 0 {
        Map::empty()
    } else {
        assoc_map(s.drop_last()).insert(s.last().0@, s.last().1)
    }
}

/// A key is in the map exactly when some entry carries it.
pub proof fn lemma_assoc_map_contains<T>(s: Seq<(Vec<u8>, T)>, k: Seq<u8>)
    ensures
        assoc_map(s).contains_key(k) <==> exists|i: int| 0 <= i < s.len() && s[i].0@ == k,
    decreases s.len(),
{
    if s.len() > 0 {
        lemma_assoc_map_contains(s.drop_last(), k);
        if s.last().0@ == k {
            assert(s[s.len() - 1].0@ == k);
        } else {
            if exists|i: int| 0 <= i < s.len() && s[i].0@ == k {
                let i = choose|i: int| 0 <= i < s.len() && s[i].0@ == k;
                assert(s.drop_last()[i] == s[i]);
            }
        }
    }
}

/// With distinct keys, each entry is what its key maps to.
pub proof fn lemma_assoc_map_index<T>(s: Seq<(Vec<u8>, T)>, i: int)
    requires
        distinct_keys(s),
        0 <= i < s.len(),
    ensures
        assoc_map(s).contains_key(s[i].0@),
        assoc_map(s)[s[i].0@] == s[i].1,
    decreases s.len(),
{
    if i == s.len() - 1 {
    } else {
        assert(distinct_keys(s.drop_last())) by {
            assert(forall|x: int, y: int|
                0 <= x < y < s.drop_last().len() ==> s.drop_last()[x] == s[x] && s.drop_last()[y]
                    == s[y]);
        }
        assert(s.drop_last()[i] == s[i]);
        lemma_assoc_map_index(s.drop_last(), i);
        assert(s[i].0@ != s.last().0@);
    }
}

/// Removing an entry removes exactly its key from the map.
pub proof fn lemma_assoc_map_remove<T>(s: Seq<(Vec<u8>, T)>, i: int)
    requires
        distinct_keys(s),
        0 <= i < s.len(),
    ensures
        assoc_map(s.remove(i)) == assoc_map(s).remove(s[i].0@),
        distinct_keys(s.remove(i)),
    decreases s.len(),
{
    s.remove_ensures(i);
    assert(distinct_keys(s.remove(i))) by {
        assert(forall|x: int|
            0 <= x < s.remove(i).len() ==> #[trigger] s.remove(i)[x] == if x < i {
                s[x]
            } else {
                s[x + 1]
            });
    }
    if i == s.len() - 1 {
        assert(s.remove(i) =~= s.drop_last());
        lemma_assoc_map_contains(s.drop_last(), s[i].0@);
        assert(assoc_map(s).remove(s[i].0@) =~= assoc_map(s.drop_last()));
    } else {
        assert(distinct_keys(s.drop_last())) by {
            assert(forall|x: int|
                0 <= x < s.drop_last().len() ==> #[trigger] s.drop_last()[x] == s[x]);
        }
        assert(s.remove(i).drop_last() =~= s.drop_last().remove(i));
        assert(s.drop_last()[i] == s[i]);
        lemma_assoc_map_remove(s.drop_last(), i);
        assert(s.remove(i).last() == s.last());
        assert(assoc_map(s.remove(i)) == assoc_map(s.drop_last().remove(i)).insert(
            s.last().0@,
            s.last().1,
        ));
        assert(s[i].0@ != s.last().0@);
        assert(assoc_map(s.drop_last()).remove(s[i].0@).insert(s.last().0@, s.last().1)
            =~= assoc_map(s.drop_last()).insert(s.last().0@, s.last().1).remove(s[i].0@));
    }
}

/// Compares two byte strings for equal contents.
pub fn bytes_eq(a: &Vec<u8>, b: &Vec<u8>) -> (r: bool)
    ensures
        r <==> a@ == b@,
{
    if a.len() != b.len() {
        return false;
    }
    let mut i: usize = 0;
    while i < a.len()
        invariant
            i <= a.len(),
            a@.len() == b@.len(),
            forall|j: int| 0 <= j < i ==> a@[j] == b@[j],
        decreases a.len() - i,
    {
        if a[i] != b[i] {
            return false;
        }
        i += 1;
    }
    proof {
        assert(a@ =~= b@);
    }
    true
}

impl<T: Copy> Store<T> {
    /// The map this store holds.
    pub open spec fn view(self) -> Map<Seq<u8>, T> {
        assoc_map(self.entries@)
    }

    /// Structural well-formedness: keys are pairwise distinct.
    pub open spec fn wf(self) -> bool {
        distinct_keys(self.entries@)
    }

    /// Creates an empty store.
    pub fn new() -> (s: Self)
        ensures
            s.wf(),
            s.view() == Map::<Seq<u8>, T>::empty(),
            s.entries@.len() == 0,
    {
        Store { entries: Vec::new() }
    }

    /// Finds the index of the entry carrying `key`, if any.
    fn index_of(&self, key: &Vec<u8>) -> (r: Option<usize>)
        ensures
            match r {
                Some(i) => i < self.entries@.len() && self.entries@[i as int].0@ == key@,
                None => forall|i: int|
                    0 <= i < self.entries@.len() ==> self.entries@[i].0@ != key@,
            },
    {
        let mut i: usize = 0;
        while i < self.entries.len()
            invariant
                i <= self.entries@.len(),
                forall|j: int| 0 <= j < i ==> self.entries@[j].0@ != key@,
            decreases self.entries@.len() - i,
        {
            if bytes_eq(&self.entries[i].0, key) {
                return Some(i);
            }
            i += 1;
        }
        None
    }

    /// Whether the store holds an entry for `key`.
    pub fn contains(&self, key: &Vec<u8>) -> (r: bool)
        ensures
            r <==> self.view().contains_key(key@),
    {
        proof {
            lemma_assoc_map_contains(self.entries@, key@);
        }
        self.index_of(key).is_some()
    }

    /// Looks up the value stored under `key`.
    pub fn get(&self, key: &Vec<u8>) -> (r: Option<T>)
        requires
            self.wf(),
        ensures
            r == if self.view().contains_key(key@) {
                Some(self.view()[key@])
            } else {
                None::<T>
            },
    {
        proof {
            lemma_assoc_map_contains(self.entries@, key@);
        }
        match self.index_of(key) {
            Some(i) => {
                proof {
                    lemma_assoc_map_index(self.entries@, i as int);
                }
                Some(self.entries[i].1)
            },
            None => None,
        }
    }

    /// Stores `value` under a key not yet present.
    pub fn insert(&mut self, key: Vec<u8>, value: T)
        requires
            old(self).wf(),
            !old(self).view().contains_key(key@),
        ensures
            final(self).wf(),
            final(self).view() == old(self).view().insert(key@, value),
            final(self).entries@ == old(self).entries@.push((key, value)),
    {
        proof {
            lemma_assoc_map_contains(self.entries@, key@);
        }
        self.entries.push((key, value));
        proof {
            assert(self.entries@.drop_last() =~= old(self).entries@);
        }
    }

    /// Removes the entry for `key`, returning its value if one was stored.
    pub fn remove(&mut self, key: &Vec<u8>) -> (r: Option<T>)
        requires
            old(self).wf(),
        ensures
            final(self).wf(),
            final(self).view() == old(self).view().remove(key@),
            r == if old(self).view().contains_key(key@) {
                Some(old(self).view()[key@])
            } else {
                None::<T>
            },
            match r {
                Some(_) => exists|i: int|
                    0 <= i < old(self).entries@.len() && old(self).entries@[i].0@ == key@
                        && final(self).entries@ == old(self).entries@.remove(i),
                None => *final(self) == *old(self),
            },
    {
        proof {
            lemma_assoc_map_contains(self.entries@, key@);
        }
        match self.index_of(key) {
            Some(i) => {
                proof {
                    lemma_assoc_map_index(self.entries@, i as int);
                    lemma_assoc_map_remove(self.entries@, i as int);
                }
                let pair = self.entries.remove(i);
                Some(pair.1)
            },
            None => {
                proof {
                    assert(self.view().remove(key@) =~= self.view());
                }
                None
            },
        }
    }

    /// The number of entries held.
    pub fn len(&self) -> (r: usize)
        ensures
            r == self.entries@.len(),
    {
        self.entries.len()
    }
}

} // verus!
