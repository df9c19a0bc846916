use vstd::prelude::*;

use crate::ids::ShortEventId;

verus! {

/// A key of a table: it can be compared in executable code.
pub trait TableKey: Sized {
    fn key_eq(&self, other: &Self) -> (r: bool)
        ensures
            r == (*self == *other),
    ;
}

impl TableKey for ShortEventId {
    fn key_eq(&self, other: &Self) -> (r: bool) {
        self.same(other)
    }
}

/// A table of the store: a map from keys to values, kept as a list of
/// entries with unique keys.
#[verifier::reject_recursive_types(K)]
pub struct Table<K, V> {
    pub entries: Vec<(K, V)>,
    pub map: Ghost<Map<K, V>>,
}

impl<K, V> View for Table<K, V> {
    type V = Map<K, V>;

    open spec fn view(&self) -> Map<K, V> {
        self.map@
    }
}

impl<K: TableKey, V> Table<K, V> {
    /// The entries hold exactly the map, each key once.
    pub open spec fn wf(&self) -> bool {
        &&& forall|i: int, j: int|
            0 <= i < j < self.entries@.len() ==> #[trigger] self.entries@[i].0
                != #[trigger] self.entries@[j].0
        &&& forall|i: int|
            0 <= i < self.entries@.len() ==> self.map@.contains_key(#[trigger] self.entries@[i].0)
                && self.map@[self.entries@[i].0] == self.entries@[i].1
        &&& forall|k: K|
            #[trigger] self.map@.contains_key(k) ==> exists|i: int|
                0 <= i < self.entries@.len() && #[trigger] self.entries@[i].0 == k
    }

    pub fn new() -> (r: Table<K, V>)
        ensures
            r.wf(),
            r@ == Map::<K, V>::empty(),
    {
        Table { entries: Vec::new(), map: Ghost(Map::empty()) }
    }

    /// Where `k` stands in the entries, if anywhere.
    fn find(&self, k: &K) -> (r: Option<usize>)
        requires
            self.wf(),
        ensures
            r is Some <==> self@.contains_key(*k),
            r matches Some(i) ==> i < self.entries@.len() && self.entries@[i as int].0 == *k,
    {
        let mut i: usize = 0;
        while i < self.entries.len()
            invariant
                self.wf(),
                i <= self.entries@.len(),
                forall|j: int| 0 <= j < i ==> self.entries@[j].0 != *k,
            decreases self.entries@.len() - i,
        {
            if self.entries[i].0.key_eq(k) {
                return Some(i);
            }
            i = i + 1;
        }
        None
    }

    pub fn contains(&self, k: &K) -> (r: bool)
        requires
            self.wf(),
        ensures
            r == self@.contains_key(*k),
    {
        self.find(k).is_some()
    }

    pub fn get(&self, k: &K) -> (r: Option<&V>)
        requires
            self.wf(),
        ensures
            r is Some <==> self@.contains_key(*k),
            r matches Some(v) ==> *v == self@[*k],
    {
        match self.find(k) {
            Some(i) => Some(&self.entries[i].1),
            None => None,
        }
    }

    /// Sets the value of `k`, replacing any that was there.
    pub fn insert(&mut self, k: K, v: V)
        requires
            old(self).wf(),
        ensures
            final(self).wf(),
            final(self)@ == old(self)@.insert(k, v),
    {
        let ghost m = self.map@.insert(k, v);
        match self.find(&k) {
            Some(i) => {
                self.entries.set(i, (k, v));
                self.map = Ghost(m);
                assert forall|q: K| #[trigger] self.map@.contains_key(q) implies exists|j: int|
                    0 <= j < self.entries@.len() && #[trigger] self.entries@[j].0 == q by {
                    if q != k {
                        let j = choose|j: int|
                            0 <= j < old(self).entries@.len() && #[trigger] old(self).entries@[j].0 == q;
                        assert(self.entries@[j].0 == q);
                    } else {
                        assert(self.entries@[i as int].0 == q);
                    }
                }
            },
            None => {
                self.entries.push((k, v));
                self.map = Ghost(m);
                assert forall|q: K| #[trigger] self.map@.contains_key(q) implies exists|j: int|
                    0 <= j < self.entries@.len() && #[trigger] self.entries@[j].0 == q by {
                    if q != k {
                        let j = choose|j: int|
                            0 <= j < old(self).entries@.len() && #[trigger] old(self).entries@[j].0 == q;
                        assert(self.entries@[j].0 == q);
                    } else {
                        assert(self.entries@[old(self).entries@.len() as int].0 == q);
                    }
                }
            },
        }
    }

    /// Removes `k`, returning the value it had.
    pub fn remove(&mut self, k: &K) -> (r: Option<V>)
        requires
            old(self).wf(),
        ensures
            final(self).wf(),
            final(self)@ == old(self)@.remove(*k),
            r is Some <==> old(self)@.contains_key(*k),
            r matches Some(v) ==> v == old(self)@[*k],
    {
        match self.find(k) {
            Some(i) => {
                let ghost m = self.map@.remove(*k);
                let e = self.entries.remove(i);
                self.map = Ghost(m);
                assert forall|a: int, b: int|
                    0 <= a < b < self.entries@.len() implies #[trigger] self.entries@[a].0
                    != #[trigger] self.entries@[b].0 by {
                    let oa = if a < i {
                        a
                    } else {
                        a + 1
                    };
                    let ob = if b < i {
                        b
                    } else {
                        b + 1
                    };
                    assert(self.entries@[a] == old(self).entries@[oa]);
                    assert(self.entries@[b] == old(self).entries@[ob]);
                }
                assert forall|a: int| 0 <= a < self.entries@.len() implies self.map@.contains_key(
                    #[trigger] self.entries@[a].0,
                ) && self.map@[self.entries@[a].0] == self.entries@[a].1 by {
                    let oa = if a < i {
                        a
                    } else {
                        a + 1
                    };
                    assert(self.entries@[a] == old(self).entries@[oa]);
                    assert(old(self).entries@[oa].0 != old(self).entries@[i as int].0);
                }
                assert forall|q: K| #[trigger] self.map@.contains_key(q) implies exists|j: int|
                    0 <= j < self.entries@.len() && #[trigger] self.entries@[j].0 == q by {
                    let j = choose|j: int|
                        0 <= j < old(self).entries@.len() && #[trigger] old(self).entries@[j].0
                            == q;
                    if j < i {
                        assert(self.entries@[j].0 == q);
                    } else {
                        assert(j != i);
                        assert(self.entries@[j - 1].0 == q);
                    }
                }
                Some(e.1)
            },
            None => {
                assert(self.map@.remove(*k) =~= self.map@);
                None
            },
        }
    }

    pub fn len(&self) -> (r: usize)
        ensures
            r == self.entries@.len(),
    {
        self.entries.len()
    }

    /// The entry at position `i`: a key of the map and its value.
    pub fn entry(&self, i: usize) -> (r: &(K, V))
        requires
            self.wf(),
            i < self.entries@.len(),
        ensures
            *r == self.entries@[i as int],
            self@.contains_key(r.0),
            self@[r.0] == r.1,
    {
        &self.entries[i]
    }
}

} // verus!
