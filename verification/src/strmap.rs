//! Maps held as lists of entries with distinct keys in insertion order, and the
//! string-keyed map built on them.

use vstd::prelude::*;

verus! {

/// Some entry has key `k`.
pub open spec fn has_key<K, V>(e: Seq<(K, V)>, k: K) -> bool {
    exists|i: int| 0 <= i < e.len() && #[trigger] e[i].0 == k
}

/// The position of the entry with key `k`.
pub open spec fn key_pos<K, V>(e: Seq<(K, V)>, k: K) -> int {
    choose|i: int| 0 <= i < e.len() && #[trigger] e[i].0 == k
}

/// No two entries share a key.
pub open spec fn distinct_keys<K, V>(e: Seq<(K, V)>) -> bool {
    forall|i: int, j: int| 0 <= i < e.len() && 0 <= j < e.len() && i != j ==> e[i].0 != e[j].0
}

/// The value under key `k`, if any.
pub open spec fn lookup<K, V>(e: Seq<(K, V)>, k: K) -> Option<V> {
    if has_key(e, k) {
        Some(e[key_pos(e, k)].1)
    } else {
        None
    }
}

/// The entries after setting key `k` to `v`: an existing entry is replaced in place,
/// a new key is appended.
pub open spec fn insert_entry<K, V>(e: Seq<(K, V)>, k: K, v: V) -> Seq<(K, V)> {
    if has_key(e, k) {
        e.update(key_pos(e, k), (k, v))
    } else {
        e.push((k, v))
    }
}

/// `new_e` is `old_e` with `x` appended to the list under key `k`, a new key getting
/// the one-element list at the end.
pub open spec fn pushed_entry<K, T>(
    old_e: Seq<(K, Vec<T>)>,
    new_e: Seq<(K, Vec<T>)>,
    k: K,
    x: T,
) -> bool {
    if has_key(old_e, k) {
        let p = key_pos(old_e, k);
        &&& new_e.len() == old_e.len()
        &&& new_e[p].0 == k
        &&& new_e[p].1@ == old_e[p].1@.push(x)
        &&& forall|i: int| 0 <= i < old_e.len() && i != p ==> #[trigger] new_e[i] == old_e[i]
    } else {
        &&& new_e.len() == old_e.len() + 1
        &&& new_e[old_e.len() as int].0 == k
        &&& new_e[old_e.len() as int].1@ == seq![x]
        &&& forall|i: int| 0 <= i < old_e.len() ==> #[trigger] new_e[i] == old_e[i]
    }
}

/// Reading a key right after setting it gives the value set, and every other key keeps
/// the value it had.
pub proof fn lemma_lookup_insert<K, V>(e: Seq<(K, V)>, k: K, v: V, other: K)
    requires
        distinct_keys(e),
    ensures
        lookup(insert_entry(e, k, v), k) == Some(v),
        other != k ==> lookup(insert_entry(e, k, v), other) == lookup(e, other),
{
    let n = insert_entry(e, k, v);
    let p = if has_key(e, k) {
        key_pos(e, k)
    } else {
        e.len() as int
    };
    assert(n[p] == (k, v));
    assert(forall|i: int| 0 <= i < e.len() && i != p ==> #[trigger] n[i] == e[i]);
    assert(distinct_keys(n)) by {
        assert forall|i: int, j: int| 0 <= i < n.len() && 0 <= j < n.len() && i != j implies n[i].0
            != n[j].0 by {
            if i == p {
                assert(n[j] == e[j]);
            } else if j == p {
                assert(n[i] == e[i]);
            } else {
                assert(n[i] == e[i] && n[j] == e[j]);
            }
        }
    }
    assert(0 <= p < n.len() && n[p].0 == k);
    assert(has_key(n, k));
    let q = key_pos(n, k);
    assert(q == p);
    if other != k {
        if has_key(e, other) {
            let r = key_pos(e, other);
            assert(n[r] == e[r]);
            assert(has_key(n, other));
            let r2 = key_pos(n, other);
            assert(r2 == r);
        } else {
            if has_key(n, other) {
                let r2 = key_pos(n, other);
                assert(n[r2] == e[r2]);
            }
        }
    }
}

/// A map from strings to values.
#[derive(Debug)]
pub struct StrMap<V> {
    entries: Vec<(String, V)>,
}

impl<V> StrMap<V> {
    /// The entries, keys given by their characters.
    pub closed spec fn entries(&self) -> Seq<(Seq<char>, V)> {
        self.entries@.map_values(|e: (String, V)| (e.0@, e.1))
    }

    /// Well-formedness: no two entries share a key.
    pub open spec fn wf(&self) -> bool {
        distinct_keys(self.entries())
    }

    /// An empty map.
    pub fn new() -> (res: StrMap<V>)
        ensures
            res.wf(),
            res.entries() == Seq::<(Seq<char>, V)>::empty(),
    {
        let res = StrMap { entries: Vec::new() };
        proof {
            assert(res.entries() =~= Seq::<(Seq<char>, V)>::empty());
        }
        res
    }

    /// The number of entries.
    pub fn len(&self) -> (res: usize)
        ensures
            res == self.entries().len(),
    {
        self.entries.len()
    }

    /// The key of the entry at position `i`.
    pub fn key_at(&self, i: usize) -> (res: &String)
        requires
            i < self.entries().len(),
        ensures
            res@ == self.entries()[i as int].0,
    {
        &self.entries[i].0
    }

    /// The value of the entry at position `i`.
    pub fn value_at(&self, i: usize) -> (res: &V)
        requires
            i < self.entries().len(),
        ensures
            *res == self.entries()[i as int].1,
    {
        &self.entries[i].1
    }

    fn find(&self, k: &String) -> (res: Option<usize>)
        requires
            self.wf(),
        ensures
            res is Some <==> has_key(self.entries(), k@),
            res matches Some(i) ==> i < self.entries().len() && i == key_pos(self.entries(), k@),
    {
        let mut i: usize = 0;
        while i < self.entries.len()
            invariant
                0 <= i <= self.entries@.len(),
                distinct_keys(self.entries()),
                forall|j: int| 0 <= j < i ==> #[trigger] self.entries()[j].0 != k@,
            decreases self.entries@.len() - i,
        {
            if self.entries[i].0 == *k {
                proof {
                    assert(self.entries()[i as int].0 == k@);
                    let p = key_pos(self.entries(), k@);
                    assert(0 <= p < self.entries().len() && self.entries()[p].0 == k@);
                }
                return Some(i);
            }
            proof {
                assert(self.entries()[i as int].0 != k@);
            }
            i = i + 1;
        }
        None
    }

    /// Whether some entry has key `k`.
    pub fn contains_key(&self, k: &String) -> (res: bool)
        requires
            self.wf(),
        ensures
            res == has_key(self.entries(), k@),
    {
        self.find(k).is_some()
    }

    /// The value under key `k`, if any.
    pub fn get(&self, k: &String) -> (res: Option<&V>)
        requires
            self.wf(),
        ensures
            res matches Some(v) ==> lookup(self.entries(), k@) == Some(*v),
            res is None ==> lookup(self.entries(), k@) is None,
    {
        match self.find(k) {
            Some(i) => Some(&self.entries[i].1),
            None => None,
        }
    }

    /// Sets key `k` to `v`.
    pub fn insert(&mut self, k: String, v: V)
        requires
            old(self).wf(),
        ensures
            final(self).wf(),
            final(self).entries() == insert_entry(old(self).entries(), k@, v),
    {
        let ghost e = self.entries();
        match self.find(&k) {
            Some(i) => {
                let _ = self.entries.remove(i);
                self.entries.insert(i, (k, v));
                proof {
                    assert(self.entries() =~= e.update(i as int, (k@, v)));
                }
            },
            None => {
                let ghost kv = k@;
                self.entries.push((k, v));
                proof {
                    assert(self.entries() =~= e.push((kv, v)));
                }
            },
        }
    }
}

impl<T> StrMap<Vec<T>> {
    /// Appends `x` to the list under key `k`, starting an empty list for a new key.
    pub fn push_to(&mut self, k: String, x: T)
        requires
            old(self).wf(),
        ensures
            final(self).wf(),
            pushed_entry(old(self).entries(), final(self).entries(), k@, x),
    {
        let ghost e = self.entries();
        match self.find(&k) {
            Some(i) => {
                let (key, mut vals) = self.entries.remove(i);
                vals.push(x);
                self.entries.insert(i, (key, vals));
                proof {
                    assert forall|j: int|
                        0 <= j < e.len() && j != i implies #[trigger] self.entries()[j] == e[j] by {
                        if j < i {
                        } else {
                        }
                    }
                    assert forall|a: int, b: int|
                        0 <= a < self.entries().len() && 0 <= b < self.entries().len() && a
                            != b implies self.entries()[a].0 != self.entries()[b].0 by {
                        assert(self.entries()[a].0 == e[a].0);
                        assert(self.entries()[b].0 == e[b].0);
                    }
                }
            },
            None => {
                let ghost kv = k@;
                let mut vals = Vec::new();
                vals.push(x);
                self.entries.push((k, vals));
                proof {
                    assert(vals@ =~= seq![x]);
                    assert forall|j: int| 0 <= j < e.len() implies #[trigger] self.entries()[j]
                        == e[j] by {}
                    assert forall|a: int, b: int|
                        0 <= a < self.entries().len() && 0 <= b < self.entries().len() && a
                            != b implies self.entries()[a].0 != self.entries()[b].0 by {
                        if a == e.len() {
                            assert(self.entries()[b].0 == e[b].0);
                        } else if b == e.len() {
                            assert(self.entries()[a].0 == e[a].0);
                        } else {
                            assert(self.entries()[a].0 == e[a].0);
                            assert(self.entries()[b].0 == e[b].0);
                        }
                    }
                }
            },
        }
    }
}

} // verus!
