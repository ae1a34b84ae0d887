//! A small keyed table: string keys, each at most once, kept in the order in which
//! they first arrived.

use vstd::prelude::*;

verus! {

/// In a sequence without duplicates, the place of an element is where it stands.
pub proof fn index_is(keys: Seq<Seq<char>>, i: int)
    requires
        keys.no_duplicates(),
        0 <= i < keys.len(),
    ensures
        keys.contains(keys[i]),
        keys.index_of(keys[i]) == i,
{
    assert(keys.contains(keys[i]));
    let p = keys.index_of(keys[i]);
    assert(keys[p] == keys[i]);
}

/// A new key at the end leaves the place of every other key as it was.
pub proof fn push_keeps_places(keys: Seq<Seq<char>>, key: Seq<char>, other: Seq<char>)
    requires
        keys.no_duplicates(),
        !keys.contains(key),
        keys.contains(other),
    ensures
        keys.push(key).no_duplicates(),
        keys.push(key).contains(other),
        keys.push(key).index_of(other) == keys.index_of(other),
        keys.push(key).contains(key),
        keys.push(key).index_of(key) == keys.len(),
{
    let longer = keys.push(key);
    assert forall|i: int, j: int| 0 <= i < longer.len() && 0 <= j < longer.len() && i != j implies longer[i]
        != longer[j] by {
        if i < keys.len() && j < keys.len() {
        } else if i < keys.len() {
            assert(keys.contains(keys[i]));
        } else {
            assert(keys.contains(keys[j]));
        }
    }
    let at = keys.index_of(other);
    assert(longer[at] == other);
    index_is(longer, at);
    assert(longer[keys.len() as int] == key);
    index_is(longer, keys.len() as int);
}

/// Entries keyed by a string. No key occurs twice; an entry never moves once it is in.
pub struct Table<V> {
    keys: Vec<String>,
    values: Vec<V>,
}

impl<V> Table<V> {
    /// What holds of every table: one value for each key, and no key twice.
    pub closed spec fn wf(self) -> bool {
        &&& self.keys@.len() == self.values@.len()
        &&& forall|i: int, j: int|
            0 <= i < j < self.keys@.len() ==> (#[trigger] self.keys@[i])@ != (#[trigger] self.keys@[j])@
    }

    /// The keys, oldest first.
    pub closed spec fn keys(self) -> Seq<Seq<char>> {
        Seq::new(self.keys@.len(), |i: int| self.keys@[i]@)
    }

    /// The values, in the order of their keys.
    pub closed spec fn values(self) -> Seq<V> {
        self.values@
    }

    /// Whether `key` has an entry.
    pub open spec fn has(self, key: Seq<char>) -> bool {
        self.keys().contains(key)
    }

    /// The place of `key` among the keys; meaningful only where `has(key)`.
    pub open spec fn place(self, key: Seq<char>) -> int {
        self.keys().index_of(key)
    }

    /// Every table has as many values as keys, and no key twice.
    pub proof fn shape(self)
        requires
            self.wf(),
        ensures
            self.keys().len() == self.values().len(),
            self.keys().no_duplicates(),
    {
        assert forall|i: int, j: int|
            0 <= i < self.keys().len() && 0 <= j < self.keys().len() && i != j implies self.keys()[i]
            != self.keys()[j] by {
            if i < j {
                assert(self.keys@[i]@ != self.keys@[j]@);
            } else {
                assert(self.keys@[j]@ != self.keys@[i]@);
            }
        }
    }

    /// An empty table.
    pub fn new() -> (t: Table<V>)
        ensures
            t.wf(),
            t.keys() == Seq::<Seq<char>>::empty(),
            t.values() == Seq::<V>::empty(),
    {
        Table { keys: Vec::new(), values: Vec::new() }
    }

    /// The number of entries.
    pub fn len(&self) -> (n: usize)
        requires
            self.wf(),
        ensures
            n == self.keys().len(),
            n == self.values().len(),
    {
        self.keys.len()
    }

    /// Where `key` is stored, if it is.
    pub fn find(&self, key: &String) -> (found: Option<usize>)
        requires
            self.wf(),
        ensures
            found is Some <==> self.has(key@),
            found matches Some(i) ==> i < self.keys().len() && self.keys()[i as int] == key@ && i
                == self.place(key@),
    {
        proof {
            self.shape();
        }
        let mut i: usize = 0;
        while i < self.keys.len()
            invariant
                i <= self.keys@.len(),
                self.wf(),
                forall|j: int| 0 <= j < i ==> self.keys()[j] != key@,
                self.keys().len() == self.keys@.len(),
            decreases self.keys@.len() - i,
        {
            if self.keys[i] == *key {
                proof {
                    assert(self.keys()[i as int] == key@);
                    self.place_is(i as int);
                }
                return Some(i);
            }
            i += 1;
        }
        None
    }

    /// A key found at `i` has `i` as its place.
    pub proof fn place_is(self, i: int)
        requires
            self.wf(),
            0 <= i < self.keys().len(),
        ensures
            self.has(self.keys()[i]),
            self.place(self.keys()[i]) == i,
    {
        self.shape();
        let k = self.keys()[i];
        assert(self.keys().contains(k));
        let p = self.keys().index_of(k);
        assert(self.keys()[p] == k);
    }

    /// The key at `i`.
    pub fn key(&self, i: usize) -> (k: &String)
        requires
            self.wf(),
            i < self.keys().len(),
        ensures
            k@ == self.keys()[i as int],
    {
        &self.keys[i]
    }

    /// The value at `i`.
    pub fn value(&self, i: usize) -> (v: &V)
        requires
            self.wf(),
            i < self.values().len(),
        ensures
            *v == self.values()[i as int],
    {
        &self.values[i]
    }

    /// Replaces the value at `i`; keys and the other values stay.
    pub fn replace(&mut self, i: usize, v: V)
        requires
            old(self).wf(),
            i < old(self).values().len(),
        ensures
            final(self).wf(),
            final(self).keys() == old(self).keys(),
            final(self).values() == old(self).values().update(i as int, v),
    {
        self.values.set(i, v);
        proof {
            assert(self.keys() =~= old(self).keys());
        }
    }

    /// Appends an entry for a key that is not in the table yet.
    pub fn append(&mut self, key: String, v: V)
        requires
            old(self).wf(),
            !old(self).has(key@),
        ensures
            final(self).wf(),
            final(self).keys() == old(self).keys().push(key@),
            final(self).values() == old(self).values().push(v),
    {
        proof {
            assert forall|j: int| 0 <= j < self.keys@.len() implies self.keys@[j]@ != key@ by {
                assert(self.keys()[j] == self.keys@[j]@);
            }
        }
        self.keys.push(key);
        self.values.push(v);
        proof {
            assert(self.keys() =~= old(self).keys().push(key@));
        }
    }
}

} // verus!
