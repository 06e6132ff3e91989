//! A map from strings that remembers the order in which its keys came.

use vstd::prelude::*;
use vstd::string::*;

use crate::text::same;

verus! {

/// The first position at or after `from` whose key is `k`.
pub open spec fn key_from<T>(m: Seq<(Seq<char>, T)>, k: Seq<char>, from: nat) -> Option<nat>
    decreases m.len() - from,
{
    if from >= m.len() {
        None
    } else if m[from as int].0 == k {
        Some(from)
    } else {
        key_from(m, k, from + 1)
    }
}

/// Where `k` stands in `m`.
pub open spec fn key_at<T>(m: Seq<(Seq<char>, T)>, k: Seq<char>) -> Option<nat> {
    key_from(m, k, 0)
}

/// What `m` holds under `k`.
pub open spec fn lookup<T>(m: Seq<(Seq<char>, T)>, k: Seq<char>) -> Option<T> {
    match key_at(m, k) {
        Some(i) => Some(m[i as int].1),
        None => None,
    }
}

/// `m` with `v` under `k`: in the place of `k` where it is there, else at the end.
pub open spec fn put<T>(m: Seq<(Seq<char>, T)>, k: Seq<char>, v: T) -> Seq<(Seq<char>, T)> {
    match key_at(m, k) {
        Some(i) => m.update(i as int, (k, v)),
        None => m.push((k, v)),
    }
}

/// Whether no key occurs twice.
pub open spec fn keys_distinct<T>(m: Seq<(Seq<char>, T)>) -> bool {
    forall|i: int, j: int| 0 <= i < j < m.len() ==> (#[trigger] m[i]).0 != (#[trigger] m[j]).0
}

/// The position that [`key_from`] finds is the first one with that key.
pub proof fn key_from_is_first<T>(m: Seq<(Seq<char>, T)>, k: Seq<char>, from: nat)
    ensures
        match key_from(m, k, from) {
            Some(i) => from <= i < m.len() && m[i as int].0 == k && forall|j: int|
                from <= j < i ==> (#[trigger] m[j]).0 != k,
            None => forall|j: int| from <= j < m.len() ==> (#[trigger] m[j]).0 != k,
        },
    decreases m.len() - from,
{
    if from < m.len() && m[from as int].0 != k {
        key_from_is_first(m, k, from + 1);
    }
}

/// What was put under a key is found there, every other key keeps what it had, and no key
/// comes to stand twice.
pub proof fn put_then_lookup<T>(m: Seq<(Seq<char>, T)>, k: Seq<char>, v: T, other: Seq<char>)
    ensures
        lookup(put(m, k, v), k) == Some(v),
        other != k ==> lookup(put(m, k, v), other) == lookup(m, other),
        keys_distinct(m) ==> keys_distinct(put(m, k, v)),
{
    let n = put(m, k, v);
    key_from_is_first(m, k, 0);
    key_from_is_first(n, k, 0);
    key_from_is_first(m, other, 0);
    key_from_is_first(n, other, 0);
    match key_at(m, k) {
        Some(i) => {
            assert(n[i as int].0 == k);
        },
        None => {
            assert(n[m.len() as int].0 == k);
        },
    }
    if other != k {
        match key_at(m, other) {
            Some(j) => {
                assert(n[j as int] == m[j as int]);
                assert(key_at(n, other) is Some);
                let q = key_at(n, other)->0;
                if q < j {
                    assert(m[q as int].0 == n[q as int].0);
                }
            },
            None => {
                if key_at(n, other) is Some {
                    let q = key_at(n, other)->0;
                    if q < m.len() {
                        assert(m[q as int].0 == n[q as int].0 || n[q as int].0 == k);
                    }
                }
            },
        }
    }
}

/// A map from strings to values.
#[derive(Debug)]
pub struct Dict<V> {
    keys: Vec<String>,
    vals: Vec<V>,
}

impl<V: View> Dict<V> {
    pub closed spec fn items(self) -> Seq<(Seq<char>, V::V)> {
        Seq::new(self.keys@.len(), |i: int| (self.keys@[i]@, self.vals@[i]@))
    }

    /// There is one value for each key.
    pub closed spec fn wf(self) -> bool {
        self.keys@.len() == self.vals@.len()
    }

    pub fn new() -> (r: Self)
        ensures
            r.wf(),
            r.items() == Seq::<(Seq<char>, V::V)>::empty(),
    {
        let r = Dict { keys: Vec::new(), vals: Vec::new() };
        assert(r.items() =~= Seq::<(Seq<char>, V::V)>::empty());
        r
    }

    pub fn len(&self) -> (r: usize)
        requires
            self.wf(),
        ensures
            r == self.items().len(),
    {
        self.keys.len()
    }

    pub fn is_empty(&self) -> (r: bool)
        requires
            self.wf(),
        ensures
            r == (self.items().len() == 0),
    {
        self.keys.len() == 0
    }

    pub fn key(&self, i: usize) -> (r: &str)
        requires
            self.wf(),
            i < self.items().len(),
        ensures
            r@ == self.items()[i as int].0,
    {
        self.keys[i].as_str()
    }

    pub fn value(&self, i: usize) -> (r: &V)
        requires
            self.wf(),
            i < self.items().len(),
        ensures
            r@ == self.items()[i as int].1,
    {
        &self.vals[i]
    }

    /// Where `k` stands.
    pub fn find(&self, k: &str) -> (r: Option<usize>)
        requires
            self.wf(),
        ensures
            match key_at(self.items(), k@) {
                Some(i) => r is Some && r->0 == i && i < self.items().len(),
                None => r is None,
            },
    {
        let mut i: usize = 0;
        while i < self.keys.len()
            invariant
                self.wf(),
                i <= self.keys@.len(),
                key_at(self.items(), k@) == key_from(self.items(), k@, i as nat),
            decreases self.keys@.len() - i,
        {
            if same(self.keys[i].as_str(), k) {
                return Some(i);
            }
            i = i + 1;
        }
        None
    }

    pub fn get(&self, k: &str) -> (r: Option<&V>)
        requires
            self.wf(),
        ensures
            match lookup(self.items(), k@) {
                Some(v) => r is Some && r->0@ == v,
                None => r is None,
            },
    {
        match self.find(k) {
            Some(i) => Some(&self.vals[i]),
            None => None,
        }
    }

    pub fn contains(&self, k: &str) -> (r: bool)
        requires
            self.wf(),
        ensures
            r == (lookup(self.items(), k@) is Some),
    {
        self.find(k).is_some()
    }

    pub fn insert(&mut self, k: String, v: V)
        requires
            old(self).wf(),
        ensures
            final(self).wf(),
            final(self).items() == put(old(self).items(), k@, v@),
    {
        match self.find(k.as_str()) {
            Some(i) => {
                proof {
                    key_from_is_first(self.items(), k@, 0);
                }
                self.vals.set(i, v);
            },
            None => {
                self.keys.push(k);
                self.vals.push(v);
            },
        }
        assert(self.items() =~= put(old(self).items(), k@, v@));
    }
}

} // verus!
