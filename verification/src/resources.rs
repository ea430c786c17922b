use crate::entities::{key_index, lemma_key_index, lemma_key_index_of};
use vstd::prelude::*;

verus! {

/// A single-slot-per-type resource store: a type-keyed map holding at
/// most one value per type key, with last-write-wins insertion. Unrelated
/// to any entity.
#[verifier::reject_recursive_types(T)]
pub struct Resources<T> {
    /// The stored type keys, each at most once.
    pub(crate) keys: Vec<u64>,
    /// The stored values, co-indexed with `keys`.
    pub(crate) vals: Vec<T>,
}

impl<T> View for Resources<T> {
    type V = Map<u64, T>;

    open(crate) spec fn view(&self) -> Map<u64, T> {
        Map::new(
            |k: u64| self.keys@.contains(k),
            |k: u64| self.vals@[key_index(self.keys@, k)],
        )
    }
}

impl<T> Default for Resources<T> {
    /// An empty store, as `Resources::new` makes it.
    fn default() -> (r: Self)
        ensures
            r.wf(),
            r@ == Map::<u64, T>::empty(),
    {
        Resources::new()
    }
}

impl<T> Resources<T> {
    /// Each key stored at most once, and one value per key.
    pub open(crate) spec fn wf(&self) -> bool {
        &&& self.keys@.len() == self.vals@.len()
        &&& forall|a: int, b: int|
            0 <= a < b < self.keys@.len() ==> self.keys@[a] != self.keys@[b]
    }

    /// An empty store.
    pub fn new() -> (r: Self)
        ensures
            r.wf(),
            r@ == Map::<u64, T>::empty(),
    {
        let r = Resources { keys: Vec::new(), vals: Vec::new() };
        proof {
            assert(r@ =~= Map::<u64, T>::empty());
        }
        r
    }

    /// Position of `type_key` among the stored keys, if present.
    fn find_key(&self, type_key: u64) -> (r: Option<usize>)
        requires
            self.wf(),
        ensures
            match r {
                Some(i) => i < self.keys@.len() && self.keys@[i as int] == type_key && i as int
                    == key_index(self.keys@, type_key),
                None => !self.keys@.contains(type_key),
            },
    {
        let n = self.keys.len();
        let mut i: usize = 0;
        while i < n
            invariant
                self.wf(),
                n == self.keys@.len(),
                forall|j: int| 0 <= j < i ==> self.keys@[j] != type_key,
            decreases n - i,
        {
            if self.keys[i] == type_key {
                proof {
                    lemma_key_index_of(self.keys@, type_key, i as int);
                }
                return Some(i);
            }
            i += 1;
        }
        None
    }

    /// Stores `data` under `type_key`, replacing any previous value of
    /// that type (last write wins).
    pub fn add(&mut self, type_key: u64, data: T)
        requires
            old(self).wf(),
        ensures
            final(self).wf(),
            final(self)@ == old(self)@.insert(type_key, data),
    {
        match self.find_key(type_key) {
            Some(i) => {
                self.vals[i] = data;
                proof {
                    assert forall|k: u64| #[trigger]
                        old(self).keys@.contains(k) implies self@[k] == old(self)@.insert(
                        type_key,
                        data,
                    )[k] by {
                        lemma_key_index(self.keys@, k);
                        if k != type_key {
                            assert(self.keys@[key_index(self.keys@, k)] == k);
                        }
                    }
                    assert(self@ =~= old(self)@.insert(type_key, data));
                }
            },
            None => {
                self.keys.push(type_key);
                self.vals.push(data);
                proof {
                    assert forall|k: u64| #[trigger]
                        self.keys@.contains(k) implies self@[k] == old(self)@.insert(
                        type_key,
                        data,
                    )[k] by {
                        let j = choose|j: int|
                            0 <= j < self.keys@.len() && self.keys@[j] == k;
                        assert forall|a: int, b: int|
                            0 <= a < b < self.keys@.len() implies self.keys@[a]
                            != self.keys@[b] by {
                            if b < self.keys@.len() - 1 {
                                assert(old(self).keys@[a] != old(self).keys@[b]);
                            } else {
                                assert(old(self).keys@.contains(old(self).keys@[a]));
                            }
                        }
                        lemma_key_index_of(self.keys@, k, j);
                        if k != type_key {
                            assert(old(self).keys@[j] == k);
                            lemma_key_index_of(old(self).keys@, k, j);
                        }
                    }
                    assert forall|k: u64|
                        old(self)@.insert(type_key, data).dom().contains(
                            k,
                        ) implies self.keys@.contains(k) by {
                        if k == type_key {
                            assert(self.keys@[self.keys@.len() - 1] == k);
                        } else {
                            let j = choose|j: int|
                                0 <= j < old(self).keys@.len() && old(self).keys@[j] == k;
                            assert(self.keys@[j] == k);
                        }
                    }
                    assert(self@ =~= old(self)@.insert(type_key, data));
                }
            },
        }
    }

    /// A shared reference to the value stored under `type_key`, if any.
    pub fn get_ref(&self, type_key: u64) -> (r: Option<&T>)
        requires
            self.wf(),
        ensures
            match r {
                Some(v) => self@.contains_key(type_key) && *v == self@[type_key],
                None => !self@.contains_key(type_key),
            },
    {
        match self.find_key(type_key) {
            Some(i) => Some(&self.vals[i]),
            None => None,
        }
    }

    /// An exclusive reference to the value stored under `type_key`, if
    /// any; the store afterwards holds whatever the caller leaves behind
    /// the reference.
    pub fn get_mut(&mut self, type_key: u64) -> (r: Option<&mut T>)
        requires
            old(self).wf(),
        ensures
            final(self).wf(),
            match r {
                Some(v) => old(self)@.contains_key(type_key) && *v == old(self)@[type_key]
                    && final(self)@ == old(self)@.insert(type_key, *final(v)),
                None => !old(self)@.contains_key(type_key) && *final(self) == *old(self),
            },
    {
        match self.find_key(type_key) {
            Some(i) => {
                proof {
                    assert forall|k: u64| #[trigger]
                        old(self).keys@.contains(k) && k != type_key implies key_index(
                        old(self).keys@,
                        k,
                    ) != i as int && 0 <= key_index(old(self).keys@, k) < old(
                        self,
                    ).keys@.len() by {
                        lemma_key_index(old(self).keys@, k);
                        assert(old(self).keys@[key_index(old(self).keys@, k)] == k);
                    }
                }
                Some(&mut self.vals[i])
            },
            None => None,
        }
    }

    /// Removes and returns the value stored under `type_key`, or `None`
    /// when no value of that type was present.
    pub fn remove(&mut self, type_key: u64) -> (r: Option<T>)
        requires
            old(self).wf(),
        ensures
            final(self).wf(),
            match r {
                Some(v) => old(self)@.contains_key(type_key) && v == old(self)@[type_key]
                    && final(self)@ == old(self)@.remove(type_key),
                None => !old(self)@.contains_key(type_key) && *final(self) == *old(self),
            },
    {
        match self.find_key(type_key) {
            Some(i) => {
                let ghost oldkeys = self.keys@;
                let ghost oldvals = self.vals@;
                self.keys.remove(i);
                let v = self.vals.remove(i);
                proof {
                    assert(self.keys@ == oldkeys.remove(i as int));
                    assert forall|a: int, b: int|
                        0 <= a < b < self.keys@.len() implies self.keys@[a]
                        != self.keys@[b] by {
                        let a0: int = if a < i { a } else { a + 1 };
                        let b0: int = if b < i { b } else { b + 1 };
                        assert(self.keys@[a] == oldkeys[a0]);
                        assert(self.keys@[b] == oldkeys[b0]);
                    }
                    assert forall|k: u64| #[trigger]
                        self.keys@.contains(k) implies oldkeys.contains(k) && k != type_key
                        && self@[k] == old(self)@[k] by {
                        let j = choose|j: int|
                            0 <= j < self.keys@.len() && self.keys@[j] == k;
                        let j0: int = if j < i { j } else { j + 1 };
                        assert(self.keys@[j] == oldkeys[j0]);
                        lemma_key_index_of(oldkeys, k, j0);
                        lemma_key_index_of(self.keys@, k, j);
                        assert(self.vals@[j] == oldvals[j0]);
                    }
                    assert forall|k: u64|
                        oldkeys.contains(k) && k != type_key implies self.keys@.contains(
                        k,
                    ) by {
                        let j0 = choose|j0: int| 0 <= j0 < oldkeys.len() && oldkeys[j0] == k;
                        let j: int = if j0 < i { j0 } else { j0 - 1 };
                        assert(oldkeys[i as int] == type_key);
                        assert(self.keys@[j] == oldkeys[j0]);
                    }
                    assert(self@ =~= old(self)@.remove(type_key));
                }
                Some(v)
            },
            None => None,
        }
    }
}

} // verus!
