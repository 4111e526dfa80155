//! A map that keeps its keys unique and its entries in insertion order.
use vstd::prelude::*;

verus! {

/// Maintains insertion order plus unique keys.
#[derive(Clone, Debug, PartialEq, Eq)]
pub struct LinkedHashMap<K, V> {
    entries: Vec<(K, V)>,
}

/// A key the map can look up: `key_eq` decides whether two keys are the same key, as
/// `key_eq_spec` states.
pub trait MapKey: Sized {
    spec fn key_eq_spec(&self, other: &Self) -> bool;

    fn key_eq(&self, other: &Self) -> (b: bool)
        ensures
            b == self.key_eq_spec(other);
}

impl MapKey for String {
    open spec fn key_eq_spec(&self, other: &Self) -> bool {
        self@ == other@
    }

    fn key_eq(&self, other: &Self) -> (b: bool) {
        *self == *other
    }
}

impl MapKey for i32 {
    open spec fn key_eq_spec(&self, other: &Self) -> bool {
        *self == *other
    }

    fn key_eq(&self, other: &Self) -> (b: bool) {
        *self == *other
    }
}

impl MapKey for i64 {
    open spec fn key_eq_spec(&self, other: &Self) -> bool {
        *self == *other
    }

    fn key_eq(&self, other: &Self) -> (b: bool) {
        *self == *other
    }
}

impl MapKey for u64 {
    open spec fn key_eq_spec(&self, other: &Self) -> bool {
        *self == *other
    }

    fn key_eq(&self, other: &Self) -> (b: bool) {
        *self == *other
    }
}

impl MapKey for usize {
    open spec fn key_eq_spec(&self, other: &Self) -> bool {
        *self == *other
    }

    fn key_eq(&self, other: &Self) -> (b: bool) {
        *self == *other
    }
}

/// The index of the first entry whose key equals `k`, if any.
pub open spec fn find_key<K: MapKey, V>(s: Seq<(K, V)>, k: K) -> Option<int> {
    if exists|i: int| 0 <= i < s.len() && (#[trigger] s[i]).0.key_eq_spec(&k) {
        Some(choose|i: int| 0 <= i < s.len() && (#[trigger] s[i]).0.key_eq_spec(&k)
            && forall|j: int| 0 <= j < i ==> !(#[trigger] s[j]).0.key_eq_spec(&k))
    } else {
        None
    }
}

/// What `find_key` returns: the first index with an equal key, or none when no key is
/// equal.
pub proof fn lemma_find_key<K: MapKey, V>(s: Seq<(K, V)>, k: K)
    ensures
        find_key(s, k) matches Some(i) ==> 0 <= i < s.len() && s[i].0.key_eq_spec(&k)
            && forall|j: int| 0 <= j < i ==> !(#[trigger] s[j]).0.key_eq_spec(&k),
        find_key(s, k) is None ==> forall|j: int| 0 <= j < s.len() ==> !(#[trigger] s[j]).0.key_eq_spec(&k),
{
    if exists|i: int| 0 <= i < s.len() && (#[trigger] s[i]).0.key_eq_spec(&k) {
        let w = choose|i: int| 0 <= i < s.len() && (#[trigger] s[i]).0.key_eq_spec(&k);
        lemma_first_witness(s, k, w);
    }
}

proof fn lemma_first_witness<K: MapKey, V>(s: Seq<(K, V)>, k: K, w: int)
    requires
        0 <= w < s.len(),
        s[w].0.key_eq_spec(&k),
    ensures
        exists|i: int| 0 <= i < s.len() && (#[trigger] s[i]).0.key_eq_spec(&k)
            && forall|j: int| 0 <= j < i ==> !(#[trigger] s[j]).0.key_eq_spec(&k),
    decreases w,
{
    if exists|j: int| 0 <= j < w && (#[trigger] s[j]).0.key_eq_spec(&k) {
        let j = choose|j: int| 0 <= j < w && (#[trigger] s[j]).0.key_eq_spec(&k);
        lemma_first_witness(s, k, j);
    } else {
        assert(0 <= w < s.len() && s[w].0.key_eq_spec(&k) && forall|j: int| 0 <= j < w ==> !(#[trigger] s[j]).0.key_eq_spec(&k));
    }
}

/// The entries after inserting `k` with `v`: an entry with an equal key gets the new
/// value in place, otherwise the pair is appended.
pub open spec fn insert_spec<K: MapKey, V>(s: Seq<(K, V)>, k: K, v: V) -> Seq<(K, V)> {
    match find_key(s, k) {
        Some(i) => s.update(i, (s[i].0, v)),
        None => s.push((k, v)),
    }
}

impl<K, V> LinkedHashMap<K, V> {
    /// The entries, in insertion order.
    pub closed spec fn entries(&self) -> Seq<(K, V)> {
        self.entries@
    }
}

impl<K, V> LinkedHashMap<K, V> {
    /// A map holding exactly the given entries, in order.
    pub(crate) fn from_entries(entries: Vec<(K, V)>) -> (m: Self)
        ensures
            m.entries() == entries@,
    {
        Self { entries }
    }

    /// The entries as (key, value) reference pairs, in insertion order.
    pub fn iter(&self) -> (v: Vec<(&K, &V)>)
        ensures
            v@.len() == self.entries().len(),
            forall|i: int| 0 <= i < v@.len() ==> (#[trigger] v@[i]).0 == &self.entries()[i].0
                && v@[i].1 == &self.entries()[i].1,
    {
        let mut v: Vec<(&K, &V)> = Vec::new();
        let mut i: usize = 0;
        while i < self.entries.len()
            invariant
                i <= self.entries@.len(),
                v@.len() == i,
                forall|j: int| 0 <= j < i ==> (#[trigger] v@[j]).0 == &self.entries@[j].0
                    && v@[j].1 == &self.entries@[j].1,
            decreases self.entries@.len() - i,
        {
            let e = &self.entries[i];
            v.push((&e.0, &e.1));
            i = i + 1;
        }
        v
    }
}

impl<K: MapKey, V> LinkedHashMap<K, V> {

    pub fn new() -> (m: Self)
        ensures
            m.entries() == Seq::<(K, V)>::empty(),
    {
        Self { entries: Vec::new() }
    }

    pub fn is_empty(&self) -> (b: bool)
        ensures
            b == (self.entries().len() == 0),
    {
        self.entries.len() == 0
    }

    pub fn len(&self) -> (n: usize)
        ensures
            n == self.entries().len(),
    {
        self.entries.len()
    }

    /// The value of the first entry whose key equals `key`, if any.
    pub fn get(&self, key: &K) -> (r: Option<&V>)
        ensures
            r == match find_key(self.entries(), *key) {
                Some(i) => Some(&self.entries()[i].1),
                None => None::<&V>,
            },
    {
        let mut i: usize = 0;
        while i < self.entries.len()
            invariant
                i <= self.entries@.len(),
                forall|j: int| 0 <= j < i ==> !(#[trigger] self.entries@[j]).0.key_eq_spec(key),
            decreases self.entries@.len() - i,
        {
            if self.entries[i].0.key_eq(key) {
                proof {
                  assert(self.entries@[i as int].1 == self.entries()[i as int].1);
                  {
                    let s = self.entries@;
                    assert(0 <= i < s.len() && s[i as int].0.key_eq_spec(key)
                        && forall|j: int| 0 <= j < i ==> !(#[trigger] s[j]).0.key_eq_spec(key));
                    lemma_find_key(s, *key);
                    let f = find_key(s, *key)->0;
                    if f < i { assert(!s[f].0.key_eq_spec(key)); }
                    if f > i { assert(!s[i as int].0.key_eq_spec(key)); }
                  }
                }
                return Some(&self.entries[i].1);
            }
            i = i + 1;
        }
        proof {
            let s = self.entries@;
            if exists|k: int| 0 <= k < s.len() && (#[trigger] s[k]).0.key_eq_spec(key) {
                let k = choose|k: int| 0 <= k < s.len() && (#[trigger] s[k]).0.key_eq_spec(key);
                assert(!s[k].0.key_eq_spec(key));
            }
        }
        None
    }

    /// Insert `key` with `value`: an entry with an equal key gets the new value (the old one
    /// is returned); otherwise the pair is appended.
    pub fn insert(&mut self, key: K, value: V) -> (r: Option<V>)
        ensures
            final(self).entries() == insert_spec(old(self).entries(), key, value),
            r == match find_key(old(self).entries(), key) {
                Some(i) => Some(old(self).entries()[i].1),
                None => None::<V>,
            },
    {
        let ghost s = self.entries@;
        let mut i: usize = 0;
        while i < self.entries.len()
            invariant
                s == old(self).entries@,
                self.entries@ == s,
                i <= s.len(),
                forall|j: int| 0 <= j < i ==> !(#[trigger] s[j]).0.key_eq_spec(&key),
            decreases s.len() - i,
        {
            if self.entries[i].0.key_eq(&key) {
                proof {
                  {
                    assert(0 <= i < s.len() && s[i as int].0.key_eq_spec(&key)
                        && forall|j: int| 0 <= j < i ==> !(#[trigger] s[j]).0.key_eq_spec(&key));
                    lemma_find_key(s, key);
                    let f = find_key(s, key)->0;
                    if f < i { assert(!s[f].0.key_eq_spec(&key)); }
                    if f > i { assert(!s[i as int].0.key_eq_spec(&key)); }
                    assert(find_key(s, key) == Some(i as int));
                  }
                }
                let (k, old_v) = self.entries.remove(i);
                self.entries.insert(i, (k, value));
                proof {
                    assert(k == s[i as int].0);
                    assert(old_v == s[i as int].1);
                    assert(self.entries@ =~= s.update(i as int, (s[i as int].0, value)));
                    assert(s == old(self).entries());
                    {
                        assert(insert_spec(s, key, value) == s.update(i as int, (s[i as int].0, value)));
                    }
                }
                return Some(old_v);
            }
            i = i + 1;
        }
        proof {
            if exists|k: int| 0 <= k < s.len() && (#[trigger] s[k]).0.key_eq_spec(&key) {
                let k = choose|k: int| 0 <= k < s.len() && (#[trigger] s[k]).0.key_eq_spec(&key);
                assert(!s[k].0.key_eq_spec(&key));
            }
        }
        self.entries.push((key, value));
        None
    }

    pub fn with_capacity(capacity: usize) -> (m: Self)
        ensures
            m.entries() == Seq::<(K, V)>::empty(),
    {
        Self { entries: Vec::new() }
    }
}

impl<K: MapKey, V> Default for LinkedHashMap<K, V> {
    fn default() -> (m: Self)
        ensures
            m.entries() == Seq::<(K, V)>::empty(),
    {
        Self::new()
    }
}

/// The keys and values of a map lie below the map in the order recursion descends.
pub proof fn lemma_entries_decrease<K, V>(m: LinkedHashMap<K, V>, i: int)
    requires
        0 <= i < m.entries().len(),
    ensures
        decreases_to!(m => m.entries()[i].0),
        decreases_to!(m => m.entries()[i].1),
{
    assert(decreases_to!(m => m.entries));
    assert(decreases_to!(m.entries => m.entries@));
    assert(decreases_to!(m.entries@ => m.entries@[i]));
    assert(decreases_to!(m.entries@[i] => m.entries@[i].0));
    assert(decreases_to!(m.entries@[i] => m.entries@[i].1));
}

/// The entry sequence of a map lies below the map in the order recursion descends.
pub proof fn lemma_entries_seq_decreases<K, V>(m: LinkedHashMap<K, V>)
    ensures
        decreases_to!(m => m.entries()),
{
    assert(decreases_to!(m => m.entries));
    assert(decreases_to!(m.entries => m.entries@));
}

/// After an insert, a lookup of the same key finds the inserted value, provided keys
/// equal themselves.
pub proof fn lemma_insert_then_get<K: MapKey, V>(s: Seq<(K, V)>, k: K, v: V)
    requires
        k.key_eq_spec(&k),
        forall|a: K, b: K| a.key_eq_spec(&b) ==> b.key_eq_spec(&a),
        forall|a: K, b: K, c: K| a.key_eq_spec(&b) && b.key_eq_spec(&c) ==> a.key_eq_spec(&c),
    ensures
        find_key(insert_spec(s, k, v), k) is Some,
        insert_spec(s, k, v)[find_key(insert_spec(s, k, v), k)->0].1 == v,
{
    let t = insert_spec(s, k, v);
    lemma_find_key(s, k);
    lemma_find_key(t, k);
    match find_key(s, k) {
        Some(i) => {
            assert(0 <= i < s.len() && s[i].0.key_eq_spec(&k) && forall|j: int| 0 <= j < i ==> !(#[trigger] s[j]).0.key_eq_spec(&k));
            assert(t[i] == (s[i].0, v));
            assert(0 <= i < t.len() && (#[trigger] t[i]).0.key_eq_spec(&k) && forall|j: int| 0 <= j < i ==> !(#[trigger] t[j]).0.key_eq_spec(&k)) by {
                assert forall|j: int| 0 <= j < i implies !(#[trigger] t[j]).0.key_eq_spec(&k) by {
                    assert(t[j] == s[j]);
                }
            }
            let f = find_key(t, k)->0;
            if f < i { assert(!t[f].0.key_eq_spec(&k)); }
            if f > i { assert(!t[i].0.key_eq_spec(&k)); }
        },
        None => {
            let n = s.len() as int;
            assert(t[n] == (k, v));
            assert forall|j: int| 0 <= j < n implies !(#[trigger] t[j]).0.key_eq_spec(&k) by {
                assert(t[j] == s[j]);
                if t[j].0.key_eq_spec(&k) {
                    assert(exists|i: int| 0 <= i < s.len() && (#[trigger] s[i]).0.key_eq_spec(&k));
                }
            }
            assert(0 <= n < t.len() && (#[trigger] t[n]).0.key_eq_spec(&k));
            let f = find_key(t, k)->0;
            if f < n { assert(!t[f].0.key_eq_spec(&k)); }
        },
    }
}

/// Inserting one key leaves the lookup of every other key as it was: the same entry is
/// found, with the same value, provided key equality is symmetric and transitive.
pub proof fn lemma_insert_keeps_other_keys<K: MapKey, V>(s: Seq<(K, V)>, k: K, v: V, k2: K)
    requires
        !k.key_eq_spec(&k2),
        forall|a: K, b: K| a.key_eq_spec(&b) ==> b.key_eq_spec(&a),
        forall|a: K, b: K, c: K| a.key_eq_spec(&b) && b.key_eq_spec(&c) ==> a.key_eq_spec(&c),
    ensures
        find_key(insert_spec(s, k, v), k2) == find_key(s, k2),
        find_key(s, k2) matches Some(j) ==> insert_spec(s, k, v)[j].1 == s[j].1,
{
    let t = insert_spec(s, k, v);
    lemma_find_key(s, k);
    lemma_find_key(s, k2);
    lemma_find_key(t, k2);
    assert forall|i: int| 0 <= i < s.len() implies (#[trigger] t[i]).0 == s[i].0 by {}
    if find_key(s, k) is None {
        let n = s.len() as int;
        assert(t[n] == (k, v));
        if t[n].0.key_eq_spec(&k2) {
            assert(k.key_eq_spec(&k2));
        }
    }
    match (find_key(s, k2), find_key(t, k2)) {
        (Some(a), Some(b)) => {
            if a < b { assert(!t[a].0.key_eq_spec(&k2)); }
            if b < a { assert(!s[b].0.key_eq_spec(&k2)); }
            if let Some(i) = find_key(s, k) {
                if i == a {
                    assert(s[i].0.key_eq_spec(&k));
                    assert(k.key_eq_spec(&s[i].0));
                }
            }
        },
        (Some(a), None) => {
            assert(!t[a].0.key_eq_spec(&k2));
        },
        (None, Some(b)) => {
            if b < s.len() {
                assert(!s[b].0.key_eq_spec(&k2));
            }
        },
        (None, None) => {},
    }
}

/// No two entries have equal keys.
pub open spec fn keys_distinct<K: MapKey, V>(s: Seq<(K, V)>) -> bool {
    forall|i: int, j: int| 0 <= i < j < s.len() ==> !(#[trigger] s[i]).0.key_eq_spec(&(#[trigger] s[j]).0)
}

/// Inserting keeps the keys of a map distinct: an equal key is updated in place, and a
/// key equal to none is appended.
pub proof fn lemma_insert_keeps_keys_distinct<K: MapKey, V>(s: Seq<(K, V)>, k: K, v: V)
    requires
        keys_distinct(s),
    ensures
        keys_distinct(insert_spec(s, k, v)),
{
    lemma_find_key(s, k);
    let t = insert_spec(s, k, v);
    assert forall|i: int, j: int| 0 <= i < j < t.len() implies !(#[trigger] t[i]).0.key_eq_spec(&(#[trigger] t[j]).0) by {
        if j < s.len() {
            assert(t[i].0 == s[i].0 && t[j].0 == s[j].0);
        } else {
            assert(t[i] == s[i]);
            assert(t[j] == (k, v));
        }
    }
}

/// Inserting never changes how many entries there are but by the one appended for a new
/// key, and never reorders them.
pub proof fn lemma_insert_len<K: MapKey, V>(s: Seq<(K, V)>, k: K, v: V)
    ensures
        insert_spec(s, k, v).len() == s.len() + (if find_key(s, k) is Some { 0int } else { 1int }),
        forall|i: int| 0 <= i < s.len() ==> (#[trigger] insert_spec(s, k, v)[i]).0 == s[i].0,
{
    lemma_find_key(s, k);
}

} // verus!
