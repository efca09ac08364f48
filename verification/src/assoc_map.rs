//! A finite map kept as a vector of entries with distinct keys: the in-memory
//! form of the keyed records a contract holds.

use crate::key_order::{has_holder_key, holder_keys_sorted, insert_holder_key};
use vstd::prelude::*;

verus! {

/// A key that can be compared and copied by its view.
pub trait MapKey: View + Sized {
    fn key_eq(&self, other: &Self) -> (r: bool)
        ensures
            r == (self@ == other@),
    ;

    fn key_clone(&self) -> (r: Self)
        ensures
            r@ == self@,
    ;
}

impl MapKey for u32 {
    fn key_eq(&self, other: &Self) -> (r: bool) {
        *self == *other
    }

    fn key_clone(&self) -> (r: Self) {
        *self
    }
}

impl MapKey for String {
    fn key_eq(&self, other: &Self) -> (r: bool) {
        *self == *other
    }

    fn key_clone(&self) -> (r: Self) {
        self.clone()
    }
}

impl MapKey for (String, u32) {
    fn key_eq(&self, other: &Self) -> (r: bool) {
        self.0 == other.0 && self.1 == other.1
    }

    fn key_clone(&self) -> (r: Self) {
        (self.0.clone(), self.1)
    }
}

impl MapKey for (String, String) {
    fn key_eq(&self, other: &Self) -> (r: bool) {
        self.0 == other.0 && self.1 == other.1
    }

    fn key_clone(&self) -> (r: Self) {
        (self.0.clone(), self.1.clone())
    }
}

/// Entries with pairwise distinct keys, and the map they stand for.
pub struct AssocMap<K: MapKey, V> {
    entries: Vec<(K, V)>,
    m: Ghost<Map<K::V, V>>,
}

impl<K: MapKey, V> View for AssocMap<K, V> {
    type V = Map<K::V, V>;

    closed spec fn view(&self) -> Map<K::V, V> {
        self.m@
    }
}

impl<K: MapKey, V> AssocMap<K, V> {
    /// The entries match the map: each entry is in it, keys are distinct, and
    /// every key of the map has an entry, so the map is finite.
    pub closed spec fn wf(&self) -> bool {
        &&& self.m@.dom().finite()
        &&& forall|i: int|
            #![trigger self.entries@[i]]
            0 <= i < self.entries@.len() ==> self.m@.contains_key(self.entries@[i].0@)
                && self.m@[self.entries@[i].0@] == self.entries@[i].1
        &&& forall|i: int, j: int|
            #![trigger self.entries@[i], self.entries@[j]]
            0 <= i < j < self.entries@.len() ==> self.entries@[i].0@ != self.entries@[j].0@
        &&& forall|k: K::V| #[trigger]
            self.m@.contains_key(k) ==> exists|i: int| 0 <= i < self.entries@.len() && self.entries@[i].0@ == k
    }

    /// A well-formed map has finitely many keys.
    pub proof fn lemma_finite(&self)
        requires
            self.wf(),
        ensures
            self@.dom().finite(),
    {
    }

    /// The entries, in the order they were first inserted.
    pub closed spec fn entry_seq(&self) -> Seq<(K, V)> {
        self.entries@
    }

    /// The empty map.
    pub fn new() -> (r: Self)
        ensures
            r.wf(),
            r@ == Map::<K::V, V>::empty(),
    {
        AssocMap { entries: Vec::new(), m: Ghost(Map::empty()) }
    }

    fn find(&self, k: &K) -> (r: Option<usize>)
        requires
            self.wf(),
        ensures
            r matches Some(i) ==> i < self.entries@.len() && self.entries@[i as int].0@ == k@,
            r is None ==> !self@.contains_key(k@),
    {
        let mut i: usize = 0;
        while i < self.entries.len()
            invariant
                self.wf(),
                i <= self.entries@.len(),
                forall|j: int| 0 <= j < i ==> self.entries@[j].0@ != k@,
            decreases self.entries@.len() - i,
        {
            if self.entries[i].0.key_eq(k) {
                return Some(i);
            }
            i += 1;
        }
        None
    }

    /// Whether `k` has an entry.
    pub fn contains_key(&self, k: &K) -> (r: bool)
        requires
            self.wf(),
        ensures
            r == self@.contains_key(k@),
    {
        match self.find(k) {
            Some(_) => true,
            None => false,
        }
    }

    /// The value under `k`, if any.
    pub fn get(&self, k: &K) -> (r: Option<&V>)
        requires
            self.wf(),
        ensures
            r is Some <==> self@.contains_key(k@),
            r matches Some(v) ==> *v == self@[k@],
    {
        match self.find(k) {
            Some(i) => Some(&self.entries[i].1),
            None => None,
        }
    }

    /// Sets the value under `k`, adding the key if it is new.
    pub fn insert(&mut self, k: K, v: V)
        requires
            old(self).wf(),
        ensures
            final(self).wf(),
            final(self)@ == old(self)@.insert(k@, v),
    {
        let ghost kv = k@;
        match self.find(&k) {
            Some(i) => {
                self.entries.set(i, (k, v));
                self.m = Ghost(self.m@.insert(kv, v));
                assert forall|k2: K::V| #[trigger] self.m@.contains_key(k2) implies exists|j: int|
                    0 <= j < self.entries@.len() && self.entries@[j].0@ == k2 by {
                    if k2 == kv {
                        assert(self.entries@[i as int].0@ == k2);
                    } else {
                        assert(old(self).m@.contains_key(k2));
                        let j = choose|j: int| 0 <= j < old(self).entries@.len() && old(self).entries@[j].0@ == k2;
                        assert(self.entries@[j].0@ == k2);
                    }
                }
            },
            None => {
                self.entries.push((k, v));
                self.m = Ghost(self.m@.insert(kv, v));
                assert forall|k2: K::V| #[trigger] self.m@.contains_key(k2) implies exists|j: int|
                    0 <= j < self.entries@.len() && self.entries@[j].0@ == k2 by {
                    if k2 == kv {
                        assert(self.entries@[self.entries@.len() - 1].0@ == k2);
                    } else {
                        assert(old(self).m@.contains_key(k2));
                        let j = choose|j: int| 0 <= j < old(self).entries@.len() && old(self).entries@[j].0@ == k2;
                        assert(self.entries@[j].0@ == k2);
                    }
                }
                assert forall|a: int, b: int| 0 <= a < b < self.entries@.len() implies
                    self.entries@[a].0@ != self.entries@[b].0@ by {
                    if b == self.entries@.len() - 1 {
                        assert(old(self).m@.contains_key(old(self).entries@[a].0@));
                    }
                }
            },
        }
    }

    /// Removes the entry under `k`, returning its value.
    pub fn remove(&mut self, k: &K) -> (r: Option<V>)
        requires
            old(self).wf(),
        ensures
            final(self).wf(),
            final(self)@ == old(self)@.remove(k@),
            r is Some <==> old(self)@.contains_key(k@),
            r matches Some(v) ==> v == old(self)@[k@],
    {
        match self.find(k) {
            Some(i) => {
                let ghost kv = k@;
                let (_, v) = self.entries.remove(i);
                self.m = Ghost(self.m@.remove(kv));
                assert forall|a: int| 0 <= a < self.entries@.len() implies
                    self.m@.contains_key(#[trigger] self.entries@[a].0@)
                        && self.m@[self.entries@[a].0@] == self.entries@[a].1 by {
                    if a < i {
                        assert(self.entries@[a] == old(self).entries@[a]);
                    } else {
                        assert(self.entries@[a] == old(self).entries@[a + 1]);
                    }
                }
                assert forall|k2: K::V| #[trigger] self.m@.contains_key(k2) implies exists|j: int|
                    0 <= j < self.entries@.len() && self.entries@[j].0@ == k2 by {
                    assert(old(self).m@.contains_key(k2));
                    let j = choose|j: int| 0 <= j < old(self).entries@.len() && old(self).entries@[j].0@ == k2;
                    if j < i {
                        assert(self.entries@[j].0@ == k2);
                    } else {
                        assert(j != i);
                        assert(self.entries@[j - 1].0@ == k2);
                    }
                }
                assert forall|a: int, b: int| 0 <= a < b < self.entries@.len() implies
                    self.entries@[a].0@ != self.entries@[b].0@ by {
                    let a2 = if a < i { a } else { a + 1 };
                    let b2 = if b < i { b } else { b + 1 };
                    assert(self.entries@[a] == old(self).entries@[a2]);
                    assert(self.entries@[b] == old(self).entries@[b2]);
                }
                Some(v)
            },
            None => {
                assert(self.m@.remove(k@) =~= self.m@);
                None
            },
        }
    }

    /// The entries, each a key of the map with its value, in insertion order.
    pub fn entries(&self) -> (r: &Vec<(K, V)>)
        requires
            self.wf(),
        ensures
            r@ == self.entry_seq(),
            forall|i: int| #![trigger r@[i]] 0 <= i < r@.len() ==> self@.contains_key(r@[i].0@) && self@[r@[i].0@] == r@[i].1,
            forall|k: K::V| #[trigger] self@.contains_key(k) ==> exists|i: int| 0 <= i < r@.len() && r@[i].0@ == k,
    {
        &self.entries
    }
}

/// Inserts `x`, absent from the strictly increasing `v`, at its place.
fn insert_sorted(v: &mut Vec<u32>, x: u32)
    requires
        forall|i: int, j: int| 0 <= i < j < old(v)@.len() ==> old(v)@[i] < old(v)@[j],
        !old(v)@.contains(x),
    ensures
        forall|i: int, j: int| 0 <= i < j < final(v)@.len() ==> final(v)@[i] < final(v)@[j],
        forall|y: u32| final(v)@.contains(y) <==> (old(v)@.contains(y) || y == x),
{
    let mut pos: usize = 0;
    while pos < v.len() && v[pos] < x
        invariant
            pos <= v@.len(),
            forall|i: int| 0 <= i < pos ==> v@[i] < x,
        decreases v@.len() - pos,
    {
        pos += 1;
    }
    let ghost before = v@;
    proof {
        if pos < before.len() {
            assert(before[pos as int] != x);
        }
    }
    v.insert(pos, x);
    assert forall|y: u32| v@.contains(y) <==> (before.contains(y) || y == x) by {
        if v@.contains(y) {
            let k = choose|k: int| 0 <= k < v@.len() && v@[k] == y;
            if k < pos {
                assert(before[k] == y);
            } else if k > pos {
                assert(before[k - 1] == y);
            }
        }
        if before.contains(y) {
            let k = choose|k: int| 0 <= k < before.len() && before[k] == y;
            if k < pos {
                assert(v@[k] == y);
            } else {
                assert(v@[k + 1] == y);
            }
        }
        if y == x {
            assert(v@[pos as int] == y);
        }
    }
}

impl<V> AssocMap<u32, V> {
    /// The keys, in increasing order.
    pub fn sorted_keys(&self) -> (r: Vec<u32>)
        requires
            self.wf(),
        ensures
            forall|i: int, j: int| 0 <= i < j < r@.len() ==> r@[i] < r@[j],
            forall|k: u32| r@.contains(k) <==> self@.contains_key(k),
    {
        let mut r: Vec<u32> = Vec::new();
        let mut i: usize = 0;
        while i < self.entries.len()
            invariant
                self.wf(),
                i <= self.entries@.len(),
                forall|a: int, b: int| 0 <= a < b < r@.len() ==> r@[a] < r@[b],
                forall|j: int| 0 <= j < i ==> r@.contains(#[trigger] self.entries@[j].0),
                forall|y: u32| r@.contains(y) ==> exists|j: int| 0 <= j < i && self.entries@[j].0 == y,
            decreases self.entries@.len() - i,
        {
            let x = self.entries[i].0;
            proof {
                if r@.contains(x) {
                    let j = choose|j: int| 0 <= j < i && self.entries@[j].0 == x;
                    assert(self.entries@[j].0@ != self.entries@[i as int].0@);
                }
            }
            insert_sorted(&mut r, x);
            proof {
                assert forall|y: u32| r@.contains(y) implies exists|j: int| 0 <= j < i + 1 && self.entries@[j].0 == y by {
                    if y == x {
                        assert(self.entries@[i as int].0 == y);
                    }
                }
            }
            i += 1;
        }
        proof {
            assert forall|k: u32| r@.contains(k) <==> self@.contains_key(k) by {
                if self@.contains_key(k) {
                    let j = choose|j: int| 0 <= j < self.entries@.len() && self.entries@[j].0@ == k;
                    assert(r@.contains(self.entries@[j].0));
                }
                if r@.contains(k) {
                    let j = choose|j: int| 0 <= j < self.entries@.len() && self.entries@[j].0 == k;
                    assert(self@.contains_key(self.entries@[j].0@));
                }
            }
        }
        r
    }
}

impl<V> AssocMap<(String, u32), V> {
    /// The (address, id) keys, in the order contract storage lists them.
    pub fn sorted_holder_keys(&self) -> (r: Vec<(String, u32)>)
        requires
            self.wf(),
        ensures
            holder_keys_sorted(r@),
            forall|k: (Seq<char>, u32)| #[trigger] has_holder_key(r@, k) <==> self@.contains_key(k),
    {
        let mut r: Vec<(String, u32)> = Vec::new();
        let mut i: usize = 0;
        while i < self.entries.len()
            invariant
                self.wf(),
                i <= self.entries@.len(),
                holder_keys_sorted(r@),
                forall|k: (Seq<char>, u32)|
                    #[trigger] has_holder_key(r@, k) <==> exists|j: int| 0 <= j < i && self.entries@[j].0@ == k,
            decreases self.entries@.len() - i,
        {
            let key = (self.entries[i].0.0.clone(), self.entries[i].0.1);
            proof {
                assert forall|j: int| 0 <= j < r@.len() implies (#[trigger] r@[j])@ != key@ by {
                    if r@[j]@ == key@ {
                        assert(has_holder_key(r@, key@));
                        let m = choose|m: int| 0 <= m < i && self.entries@[m].0@ == key@;
                        assert(self.entries@[m].0@ != self.entries@[i as int].0@);
                    }
                }
            }
            let ghost before = r@;
            insert_holder_key(&mut r, key);
            proof {
                assert forall|k: (Seq<char>, u32)|
                    #[trigger] has_holder_key(r@, k) <==> exists|j: int| 0 <= j < i + 1 && self.entries@[j].0@ == k by {
                    assert(has_holder_key(r@, k) <==> (has_holder_key(before, k) || k == key@));
                    if k == key@ {
                        assert(self.entries@[i as int].0@ == k);
                    }
                    if exists|j: int| 0 <= j < i + 1 && self.entries@[j].0@ == k {
                        let j = choose|j: int| 0 <= j < i + 1 && self.entries@[j].0@ == k;
                        if j < i {
                            assert(exists|j2: int| 0 <= j2 < i && self.entries@[j2].0@ == k);
                        }
                    }
                }
            }
            i += 1;
        }
        proof {
            assert forall|k: (Seq<char>, u32)| #[trigger] has_holder_key(r@, k) <==> self@.contains_key(k) by {
                if self@.contains_key(k) {
                    let j = choose|j: int| 0 <= j < self.entries@.len() && self.entries@[j].0@ == k;
                    assert(exists|j2: int| 0 <= j2 < self.entries@.len() && self.entries@[j2].0@ == k);
                }
                if has_holder_key(r@, k) {
                    let j = choose|j: int| 0 <= j < self.entries@.len() && self.entries@[j].0@ == k;
                    assert(self@.contains_key(self.entries@[j].0@));
                }
            }
        }
        r
    }
}

} // verus!
