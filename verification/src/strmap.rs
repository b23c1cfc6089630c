//! A string-keyed map kept as a list of entries in the order in which their
//! keys were first inserted.
//!
//! Lookups find the first entry with a matching key; `insert` replaces that
//! entry's value or appends a new entry, so a map built with `insert` never
//! holds a key twice.
use vstd::prelude::*;

verus! {

/// `es` has an entry named `k`.
pub open spec fn keyed_has<K, W>(es: Seq<(K, W)>, k: K) -> bool {
    exists|i: int| 0 <= i < es.len() && #[trigger] es[i].0 == k
}

/// The position of the first entry of `es` named `k`.
pub open spec fn keyed_index<K, W>(es: Seq<(K, W)>, k: K) -> int {
    choose|i: int| 0 <= i < es.len() && es[i].0 == k && forall|j: int| 0 <= j < i ==> #[trigger] es[j].0 != k
}

/// The value of the first entry of `es` named `k`.
pub open spec fn keyed_get<K, W>(es: Seq<(K, W)>, k: K) -> Option<W> {
    if keyed_has(es, k) {
        Some(es[keyed_index(es, k)].1)
    } else {
        None
    }
}

/// Puts `v` under `k`: the first entry named `k` takes the value, or a new
/// entry is added at the end.
pub open spec fn keyed_insert<K, W>(es: Seq<(K, W)>, k: K, v: W) -> Seq<(K, W)> {
    if keyed_has(es, k) {
        es.update(keyed_index(es, k), (k, v))
    } else {
        es.push((k, v))
    }
}

/// Drops the first entry named `k`, if there is one.
pub open spec fn keyed_remove<K, W>(es: Seq<(K, W)>, k: K) -> Seq<(K, W)> {
    if keyed_has(es, k) {
        es.remove(keyed_index(es, k))
    } else {
        es
    }
}

/// No two entries of `es` have the same name.
pub open spec fn keyed_unique<K, W>(es: Seq<(K, W)>) -> bool {
    forall|i: int, j: int| 0 <= i < es.len() && 0 <= j < es.len() && i != j ==> #[trigger] es[i].0 != #[trigger] es[j].0
}

pub proof fn lemma_keyed_index<K, W>(es: Seq<(K, W)>, k: K)
    requires
        keyed_has(es, k),
    ensures
        0 <= keyed_index(es, k) < es.len(),
        es[keyed_index(es, k)].0 == k,
        forall|j: int| 0 <= j < keyed_index(es, k) ==> #[trigger] es[j].0 != k,
    decreases es.len(),
{
    let i = choose|i: int| 0 <= i < es.len() && #[trigger] es[i].0 == k;
    lemma_keyed_first_below(es, k, i);
}

proof fn lemma_keyed_first_below<K, W>(es: Seq<(K, W)>, k: K, i: int)
    requires
        0 <= i < es.len(),
        es[i].0 == k,
    ensures
        exists|f: int| 0 <= f < es.len() && es[f].0 == k && forall|j: int| 0 <= j < f ==> #[trigger] es[j].0 != k,
    decreases i,
{
    if exists|j: int| 0 <= j < i && #[trigger] es[j].0 == k {
        let j = choose|j: int| 0 <= j < i && #[trigger] es[j].0 == k;
        lemma_keyed_first_below(es, k, j);
    }
}

/// The first entry named `k` is the only place where `k` is found, when no
/// name occurs twice.
pub proof fn lemma_keyed_index_of<K, W>(es: Seq<(K, W)>, k: K, i: int)
    requires
        0 <= i < es.len(),
        es[i].0 == k,
        forall|j: int| 0 <= j < i ==> #[trigger] es[j].0 != k,
    ensures
        keyed_has(es, k),
        keyed_index(es, k) == i,
{
    lemma_keyed_index(es, k);
    let c = keyed_index(es, k);
    if c < i {
        assert(es[c].0 != k);
    } else if i < c {
        assert(es[i].0 != k);
    }
}

/// Two entry lists whose names match position by position (`k1` in one
/// exactly where `k2` is in the other) find those names at the same place.
pub proof fn lemma_keyed_index_match<K1, W1, K2, W2>(a: Seq<(K1, W1)>, k1: K1, b: Seq<(K2, W2)>, k2: K2)
    requires
        a.len() == b.len(),
        forall|i: int| 0 <= i < a.len() ==> (#[trigger] a[i].0 == k1 <==> b[i].0 == k2),
    ensures
        keyed_has(a, k1) == keyed_has(b, k2),
        keyed_has(a, k1) ==> keyed_index(a, k1) == keyed_index(b, k2),
{
    if keyed_has(a, k1) {
        lemma_keyed_index(a, k1);
        let i = keyed_index(a, k1);
        assert(b[i].0 == k2);
        assert forall|j: int| 0 <= j < i implies #[trigger] b[j].0 != k2 by {
            assert(a[j].0 != k1);
        }
        lemma_keyed_index_of(b, k2, i);
    } else if keyed_has(b, k2) {
        let i = choose|i: int| 0 <= i < b.len() && #[trigger] b[i].0 == k2;
        assert(a[i].0 == k1);
    }
}

/// Reading back what `keyed_insert` put, and what it left alone.
pub proof fn lemma_keyed_insert_get<K, W>(es: Seq<(K, W)>, k: K, v: W, k2: K)
    ensures
        keyed_get(keyed_insert(es, k, v), k2) == (if k2 == k { Some(v) } else { keyed_get(es, k2) }),
        keyed_unique(es) ==> keyed_unique(keyed_insert(es, k, v)),
{
    let r = keyed_insert(es, k, v);
    if keyed_has(es, k) {
        lemma_keyed_index(es, k);
        let f = keyed_index(es, k);
        assert forall|i: int| 0 <= i < r.len() && i != f implies #[trigger] r[i] == es[i] by {}
        assert(r[f].0 == k);
        if k2 == k {
            lemma_keyed_index_of(r, k, f);
        } else if keyed_has(es, k2) {
            lemma_keyed_index(es, k2);
            let g = keyed_index(es, k2);
            assert(g != f);
            assert forall|j: int| 0 <= j < g implies #[trigger] r[j].0 != k2 by {
                if j != f { assert(es[j].0 != k2); }
            }
            lemma_keyed_index_of(r, k2, g);
        } else {
            if keyed_has(r, k2) {
                let i = choose|i: int| 0 <= i < r.len() && #[trigger] r[i].0 == k2;
                assert(i != f);
                assert(es[i].0 == k2);
            }
        }
        if keyed_unique(es) {
            assert forall|a: int, b: int| 0 <= a < r.len() && 0 <= b < r.len() && a != b
                implies #[trigger] r[a].0 != #[trigger] r[b].0 by {
                assert(r[a].0 == es[a].0 && r[b].0 == es[b].0);
            }
        }
    } else {
        let n = es.len() as int;
        assert forall|i: int| 0 <= i < n implies #[trigger] r[i] == es[i] by {}
        if k2 == k {
            assert forall|j: int| 0 <= j < n implies #[trigger] r[j].0 != k by {
                assert(es[j].0 != k);
            }
            lemma_keyed_index_of(r, k, n);
        } else if keyed_has(es, k2) {
            lemma_keyed_index(es, k2);
            let g = keyed_index(es, k2);
            assert forall|j: int| 0 <= j < g implies #[trigger] r[j].0 != k2 by {
                assert(es[j].0 != k2);
            }
            lemma_keyed_index_of(r, k2, g);
        } else {
            if keyed_has(r, k2) {
                let i = choose|i: int| 0 <= i < r.len() && #[trigger] r[i].0 == k2;
                assert(i != n);
                assert(es[i].0 == k2);
            }
        }
        if keyed_unique(es) {
            assert forall|a: int, b: int| 0 <= a < r.len() && 0 <= b < r.len() && a != b
                implies #[trigger] r[a].0 != #[trigger] r[b].0 by {
                if a == n {
                    assert(es[b].0 != k);
                } else if b == n {
                    assert(es[a].0 != k);
                } else {
                    assert(es[a].0 != es[b].0);
                }
            }
        }
    }
}

/// After `keyed_remove` of `k` the name `k` is gone (no name occurring
/// twice), and every other name reads as before.
pub proof fn lemma_keyed_remove_get<K, W>(es: Seq<(K, W)>, k: K, k2: K)
    requires
        keyed_unique(es),
    ensures
        keyed_get(keyed_remove(es, k), k2) == (if k2 == k { None } else { keyed_get(es, k2) }),
        keyed_unique(keyed_remove(es, k)),
{
    let r = keyed_remove(es, k);
    if keyed_has(es, k) {
        lemma_keyed_index(es, k);
        let f = keyed_index(es, k);
        assert forall|i: int| 0 <= i < r.len() implies #[trigger] r[i] == es[if i < f { i } else { i + 1 }] by {}
        if keyed_has(r, k2) {
            let i = choose|i: int| 0 <= i < r.len() && #[trigger] r[i].0 == k2;
            let i2 = if i < f { i } else { i + 1 };
            assert(es[i2].0 == k2);
            if k2 == k {
                assert(es[i2].0 != es[f].0);
            } else {
                lemma_keyed_index(r, k2);
                let g = keyed_index(r, k2);
                let g2 = if g < f { g } else { g + 1 };
                assert(es[g2].0 == k2);
                assert forall|j: int| 0 <= j < g2 implies #[trigger] es[j].0 != k2 by {
                    if j != f {
                        let j1 = if j < f { j } else { j - 1 };
                        assert(r[j1] == es[j]);
                    }
                }
                lemma_keyed_index_of(es, k2, g2);
            }
        } else if k2 != k {
            if keyed_has(es, k2) {
                let i = choose|i: int| 0 <= i < es.len() && #[trigger] es[i].0 == k2;
                assert(i != f);
                let i1 = if i < f { i } else { i - 1 };
                assert(r[i1] == es[i]);
            }
        }
        assert forall|a: int, b: int| 0 <= a < r.len() && 0 <= b < r.len() && a != b
            implies #[trigger] r[a].0 != #[trigger] r[b].0 by {
            let a2 = if a < f { a } else { a + 1 };
            let b2 = if b < f { b } else { b + 1 };
            assert(es[a2].0 != es[b2].0);
        }
    } else {
        if k2 == k {
        }
    }
}

#[derive(Debug, PartialEq)]
pub struct StrMap<V> {
    pub entries: Vec<(String, V)>,
}

impl<V> StrMap<V> {
    /// The key of entry `i`, as characters.
    pub open spec fn key_at(self, i: int) -> Seq<char> {
        self.entries@[i].0@
    }

    pub open spec fn has_key(self, k: Seq<char>) -> bool {
        exists|i: int| 0 <= i < self.entries@.len() && #[trigger] self.key_at(i) == k
    }

    /// Entry `i` is the first one whose key is `k`.
    pub open spec fn is_first(self, k: Seq<char>, i: int) -> bool {
        &&& 0 <= i < self.entries@.len()
        &&& self.key_at(i) == k
        &&& forall|j: int| 0 <= j < i ==> #[trigger] self.key_at(j) != k
    }

    pub open spec fn first_index(self, k: Seq<char>) -> int {
        choose|i: int| self.is_first(k, i)
    }

    /// No key occurs in two entries.
    pub open spec fn unique_keys(self) -> bool {
        forall|i: int, j: int|
            0 <= i < self.entries@.len() && 0 <= j < self.entries@.len() && i != j
                ==> #[trigger] self.key_at(i) != #[trigger] self.key_at(j)
    }

    /// The keys, in entry order.
    pub open spec fn key_seq(self) -> Seq<Seq<char>> {
        self.entries@.map_values(|e: (String, V)| e.0@)
    }

    pub open spec fn as_map(self) -> Map<Seq<char>, V> {
        Map::new(|k: Seq<char>| self.has_key(k), |k: Seq<char>| self.entries@[self.first_index(k)].1)
    }

    pub proof fn lemma_first_exists(self, k: Seq<char>)
        requires
            self.has_key(k),
        ensures
            self.is_first(k, self.first_index(k)),
    {
        let i = choose|i: int| 0 <= i < self.entries@.len() && #[trigger] self.key_at(i) == k;
        self.lemma_first_below(k, i);
    }

    proof fn lemma_first_below(self, k: Seq<char>, i: int)
        requires
            0 <= i < self.entries@.len(),
            self.key_at(i) == k,
        ensures
            exists|f: int| self.is_first(k, f),
        decreases i,
    {
        if exists|j: int| 0 <= j < i && #[trigger] self.key_at(j) == k {
            let j = choose|j: int| 0 <= j < i && #[trigger] self.key_at(j) == k;
            self.lemma_first_below(k, j);
        } else {
            assert(self.is_first(k, i));
        }
    }

    pub proof fn lemma_first_unique(self, k: Seq<char>, i: int)
        requires
            self.is_first(k, i),
        ensures
            self.first_index(k) == i,
            self.as_map().contains_key(k),
            self.as_map()[k] == self.entries@[i].1,
    {
        let f = self.first_index(k);
        assert(self.is_first(k, f));
        if f < i {
            assert(self.key_at(f) != k);
        } else if i < f {
            assert(self.key_at(i) != k);
        }
    }

    pub fn new() -> (m: Self)
        ensures
            m.as_map() == Map::<Seq<char>, V>::empty(),
            m.entries@.len() == 0,
            m.unique_keys(),
    {
        let m = StrMap { entries: Vec::new() };
        assert(m.as_map() =~= Map::<Seq<char>, V>::empty());
        m
    }

    pub fn len(&self) -> (n: usize)
        ensures
            n == self.entries@.len(),
    {
        self.entries.len()
    }

    /// Index of the first entry whose key is `key`.
    pub fn find(&self, key: &str) -> (r: Option<usize>)
        ensures
            match r {
                Some(i) => self.is_first(key@, i as int),
                None => !self.has_key(key@),
            },
    {
        let n = self.entries.len();
        let mut i: usize = 0;
        while i < n
            invariant
                n == self.entries@.len(),
                i <= n,
                forall|j: int| 0 <= j < i ==> #[trigger] self.key_at(j) != key@,
            decreases n - i,
        {
            if crate::text::str_eq(self.entries[i].0.as_str(), key) {
                return Some(i);
            }
            i = i + 1;
        }
        None
    }

    pub fn get(&self, key: &str) -> (r: Option<&V>)
        ensures
            match r {
                Some(v) => self.as_map().contains_key(key@) && *v == self.as_map()[key@],
                None => !self.as_map().contains_key(key@),
            },
    {
        match self.find(key) {
            Some(i) => {
                proof {
                    self.lemma_first_unique(key@, i as int);
                }
                Some(&self.entries[i].1)
            },
            None => None,
        }
    }

    pub fn contains_key(&self, key: &str) -> (b: bool)
        ensures
            b == self.as_map().contains_key(key@),
    {
        self.find(key).is_some()
    }

    /// Takes out the first entry whose key is `key`, giving back its value.
    pub fn remove(&mut self, key: &str) -> (r: Option<V>)
        ensures
            r is Some == old(self).has_key(key@),
            r matches Some(v) ==> v == old(self).as_map()[key@]
                && final(self).entries@ == old(self).entries@.remove(old(self).first_index(key@)),
            r is None ==> final(self).entries@ == old(self).entries@,
            old(self).unique_keys() ==> final(self).unique_keys() && !final(self).has_key(key@),
    {
        let ghost old_self = *self;
        match self.find(key) {
            Some(i) => {
                proof {
                    old_self.lemma_first_unique(key@, i as int);
                }
                let (_k, v) = self.entries.remove(i);
                proof {
                    let new_self = *self;
                    assert forall|j: int| 0 <= j < new_self.entries@.len() implies
                        #[trigger] new_self.key_at(j) == old_self.key_at(if j < i { j } else { j + 1 }) by {}
                    if old_self.unique_keys() {
                        assert forall|a: int, b: int|
                            0 <= a < new_self.entries@.len() && 0 <= b < new_self.entries@.len() && a != b
                                implies #[trigger] new_self.key_at(a) != #[trigger] new_self.key_at(b) by {
                            let a2 = if a < i { a } else { a + 1 };
                            let b2 = if b < i { b } else { b + 1 };
                            assert(new_self.key_at(a) == old_self.key_at(a2));
                            assert(new_self.key_at(b) == old_self.key_at(b2));
                            assert(old_self.key_at(a2) != old_self.key_at(b2));
                        }
                        if new_self.has_key(key@) {
                            let j = choose|j: int| 0 <= j < new_self.entries@.len() && #[trigger] new_self.key_at(j) == key@;
                            let j2 = if j < i { j } else { j + 1 };
                            assert(new_self.key_at(j) == old_self.key_at(j2));
                            assert(old_self.key_at(j2) != old_self.key_at(i as int));
                        }
                    }
                }
                Some(v)
            },
            None => None,
        }
    }

    /// The value of the first entry whose key is `key`, to be changed in place.
    pub fn get_mut(&mut self, key: &str) -> (r: Option<&mut V>)
        ensures
            r is Some == old(self).has_key(key@),
            r matches Some(v) ==> *v == old(self).as_map()[key@]
                && final(self).entries@ == old(self).entries@.update(old(self).first_index(key@),
                    (old(self).entries@[old(self).first_index(key@)].0, *final(v))),
            r is None ==> *final(self) == *old(self),
    {
        match self.find(key) {
            Some(i) => {
                proof {
                    self.lemma_first_unique(key@, i as int);
                }
                let e = &mut self.entries[i];
                Some(&mut e.1)
            },
            None => None,
        }
    }

    /// Sets the value of `key`, keeping the position of an existing key.
    pub fn insert(&mut self, key: String, value: V)
        ensures
            final(self).as_map() == old(self).as_map().insert(key@, value),
            old(self).unique_keys() ==> final(self).unique_keys(),
            old(self).has_key(key@) ==> final(self).key_seq() == old(self).key_seq(),
            !old(self).has_key(key@) ==> final(self).key_seq() == old(self).key_seq().push(key@),
            old(self).has_key(key@) ==> final(self).entries@ == old(self).entries@.update(old(self).first_index(key@), (key, value)),
            !old(self).has_key(key@) ==> final(self).entries@ == old(self).entries@.push((key, value)),
    {
        let ghost old_self = *self;
        let ghost k = key@;
        match self.find(key.as_str()) {
            Some(i) => {
                proof {
                    old_self.lemma_first_unique(k, i as int);
                }
                self.entries.set(i, (key, value));
                proof {
                    let new_self = *self;
                    assert forall|j: int| 0 <= j < new_self.entries@.len() implies
                        #[trigger] new_self.key_at(j) == old_self.key_at(j) by {}
                    assert forall|k2: Seq<char>| #[trigger] new_self.has_key(k2) == old_self.has_key(k2) by {
                        if old_self.has_key(k2) {
                            let j = choose|j: int| 0 <= j < old_self.entries@.len() && #[trigger] old_self.key_at(j) == k2;
                            assert(new_self.key_at(j) == k2);
                        }
                        if new_self.has_key(k2) {
                            let j = choose|j: int| 0 <= j < new_self.entries@.len() && #[trigger] new_self.key_at(j) == k2;
                            assert(old_self.key_at(j) == k2);
                        }
                    }
                    assert forall|k2: Seq<char>| new_self.has_key(k2) implies
                        new_self.as_map()[k2] == old_self.as_map().insert(k, value)[k2] by {
                        old_self.lemma_first_exists(k2);
                        let f = old_self.first_index(k2);
                        assert(new_self.is_first(k2, f));
                        new_self.lemma_first_unique(k2, f);
                        old_self.lemma_first_unique(k2, f);
                        if k2 == k {
                            old_self.lemma_first_unique(k, i as int);
                        }
                    }
                    assert(old_self.has_key(k));
                    assert(new_self.as_map() =~= old_self.as_map().insert(k, value));
                    assert(new_self.key_seq() =~= old_self.key_seq());
                }
            },
            None => {
                self.entries.push((key, value));
                proof {
                    let new_self = *self;
                    let n = old_self.entries@.len() as int;
                    assert forall|j: int| 0 <= j < n implies
                        #[trigger] new_self.key_at(j) == old_self.key_at(j) by {}
                    assert(new_self.key_at(n) == k);
                    assert forall|k2: Seq<char>| #[trigger] new_self.has_key(k2) == (old_self.has_key(k2) || k2 == k) by {
                        if old_self.has_key(k2) {
                            let j = choose|j: int| 0 <= j < old_self.entries@.len() && #[trigger] old_self.key_at(j) == k2;
                            assert(new_self.key_at(j) == k2);
                        }
                        if new_self.has_key(k2) && k2 != k {
                            let j = choose|j: int| 0 <= j < new_self.entries@.len() && #[trigger] new_self.key_at(j) == k2;
                            assert(j != n);
                            assert(old_self.key_at(j) == k2);
                        }
                    }
                    assert forall|k2: Seq<char>| new_self.has_key(k2) implies
                        new_self.as_map()[k2] == old_self.as_map().insert(k, value)[k2] by {
                        if k2 == k {
                            assert forall|j: int| 0 <= j < n implies #[trigger] new_self.key_at(j) != k by {
                                if new_self.key_at(j) == k {
                                    assert(old_self.key_at(j) == k);
                                }
                            }
                            new_self.lemma_first_unique(k, n);
                        } else {
                            old_self.lemma_first_exists(k2);
                            let f = old_self.first_index(k2);
                            assert(new_self.is_first(k2, f));
                            new_self.lemma_first_unique(k2, f);
                            old_self.lemma_first_unique(k2, f);
                        }
                    }
                    assert(new_self.as_map() =~= old_self.as_map().insert(k, value));
                    assert(new_self.key_seq() =~= old_self.key_seq().push(k));
                    if old_self.unique_keys() {
                        assert forall|a: int, b: int|
                            0 <= a < new_self.entries@.len() && 0 <= b < new_self.entries@.len() && a != b
                                implies #[trigger] new_self.key_at(a) != #[trigger] new_self.key_at(b) by {
                            if a == n {
                                if new_self.key_at(b) == k { assert(old_self.key_at(b) == k); }
                            } else if b == n {
                                if new_self.key_at(a) == k { assert(old_self.key_at(a) == k); }
                            } else {
                                assert(old_self.key_at(a) != old_self.key_at(b));
                            }
                        }
                    }
                }
            },
        }
    }
}

impl<V: View> StrMap<V> {
    /// The entries as key texts and value views, in order.
    pub open spec fn pairs(self) -> Seq<(Seq<char>, V::V)> {
        self.entries@.map_values(|e: (String, V)| (e.0@, e.1@))
    }

    /// The entry positions of a key agree between the map and its pairs.
    pub proof fn lemma_pairs_index(self, k: Seq<char>)
        ensures
            self.pairs().len() == self.entries@.len(),
            forall|i: int| 0 <= i < self.entries@.len() ==> #[trigger] self.pairs()[i] == (self.entries@[i].0@, self.entries@[i].1@),
            keyed_has(self.pairs(), k) == self.has_key(k),
            self.has_key(k) ==> keyed_index(self.pairs(), k) == self.first_index(k),
    {
        let ps = self.pairs();
        assert forall|i: int| 0 <= i < ps.len() implies #[trigger] ps[i].0 == self.key_at(i) by {}
        if self.has_key(k) {
            self.lemma_first_exists(k);
            let f = self.first_index(k);
            assert(ps[f].0 == k);
            let c = keyed_index(ps, k);
            assert(ps[f].0 == k && forall|j: int| 0 <= j < f ==> #[trigger] ps[j].0 != k) by {
                assert forall|j: int| 0 <= j < f implies #[trigger] ps[j].0 != k by {
                    assert(self.key_at(j) != k);
                }
            }
            if c < f {
                assert(self.key_at(c) != k);
            } else if f < c {
                assert(ps[f].0 != k);
            }
        } else {
            if keyed_has(ps, k) {
                let i = choose|i: int| 0 <= i < ps.len() && #[trigger] ps[i].0 == k;
                assert(self.key_at(i) == k);
            }
        }
    }

    /// What `insert` does to the pairs.
    pub proof fn lemma_insert_pairs(old_m: Self, new_m: Self, key: String, value: V)
        requires
            old_m.has_key(key@) ==> new_m.entries@ == old_m.entries@.update(old_m.first_index(key@), (key, value)),
            !old_m.has_key(key@) ==> new_m.entries@ == old_m.entries@.push((key, value)),
        ensures
            new_m.pairs() == keyed_insert(old_m.pairs(), key@, value@),
    {
        old_m.lemma_pairs_index(key@);
        new_m.lemma_pairs_index(key@);
        if old_m.has_key(key@) {
            old_m.lemma_first_exists(key@);
            assert(new_m.pairs() =~= old_m.pairs().update(old_m.first_index(key@), (key@, value@)));
        } else {
            assert(new_m.pairs() =~= old_m.pairs().push((key@, value@)));
        }
    }

    /// `get` by pairs.
    pub proof fn lemma_get_pairs(self, k: Seq<char>)
        ensures
            keyed_get(self.pairs(), k) == (if self.as_map().contains_key(k) { Some(self.as_map()[k]@) } else { None::<V::V> }),
    {
        self.lemma_pairs_index(k);
        if self.has_key(k) {
            self.lemma_first_exists(k);
            self.lemma_first_unique(k, self.first_index(k));
        }
    }
    /// What `remove` does to the pairs.
    pub proof fn lemma_remove_pairs(old_m: Self, new_m: Self, key: Seq<char>)
        requires
            old_m.has_key(key) ==> new_m.entries@ == old_m.entries@.remove(old_m.first_index(key)),
            !old_m.has_key(key) ==> new_m.entries@ == old_m.entries@,
        ensures
            new_m.pairs() == keyed_remove(old_m.pairs(), key),
    {
        old_m.lemma_pairs_index(key);
        if old_m.has_key(key) {
            old_m.lemma_first_exists(key);
            assert(new_m.pairs() =~= old_m.pairs().remove(old_m.first_index(key)));
        } else {
            assert(new_m.pairs() =~= old_m.pairs());
        }
    }

    /// Unique keys in the map are unique names in its pairs.
    pub proof fn lemma_unique_pairs(self)
        requires
            self.unique_keys(),
        ensures
            keyed_unique(self.pairs()),
    {
        let ps = self.pairs();
        assert forall|a: int, b: int| 0 <= a < ps.len() && 0 <= b < ps.len() && a != b
            implies #[trigger] ps[a].0 != #[trigger] ps[b].0 by {
            assert(ps[a].0 == self.key_at(a) && ps[b].0 == self.key_at(b));
        }
    }
}

} // verus!
