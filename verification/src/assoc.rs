//! A small association map with exact contracts. The cache tables are keyed
//! by strings and string pairs, which the std maps cannot carry proofs for
//! here, so the cache stores its entries in these instead.

use vstd::prelude::*;

verus! {

/// A map key: a type whose values can be compared and copied by content.
pub trait MapKey: View + Sized {
    /// Whether two keys have the same content.
    fn key_eq(&self, other: &Self) -> (r: bool)
        ensures
            r == (self@ == other@),
    ;

    /// A copy with the same content.
    fn key_clone(&self) -> (r: Self)
        ensures
            r@ == self@,
    ;
}

impl MapKey for String {
    fn key_eq(&self, other: &Self) -> (r: bool) {
        *self == *other
    }

    fn key_clone(&self) -> (r: Self) {
        self.clone()
    }
}

/// A dataset name with a session key: the key space of the per-session
/// score cache.
pub struct SessionKey {
    pub dataset: String,
    pub session: String,
}

impl View for SessionKey {
    type V = (Seq<char>, Seq<char>);

    open spec fn view(&self) -> (Seq<char>, Seq<char>) {
        (self.dataset@, self.session@)
    }
}

impl MapKey for SessionKey {
    fn key_eq(&self, other: &Self) -> (r: bool) {
        self.dataset == other.dataset && self.session == other.session
    }

    fn key_clone(&self) -> (r: Self) {
        SessionKey { dataset: self.dataset.clone(), session: self.session.clone() }
    }
}

/// Whether some key in `keys` has content `k`.
pub open spec fn has_key<K: MapKey>(keys: Seq<K>, k: K::V) -> bool {
    exists|i: int| 0 <= i < keys.len() && keys[i]@ == k
}

/// The position of the key with content `k`.
pub open spec fn key_index<K: MapKey>(keys: Seq<K>, k: K::V) -> int {
    choose|i: int| 0 <= i < keys.len() && keys[i]@ == k
}

/// Whether no two keys share their content.
pub open spec fn distinct_keys<K: MapKey>(keys: Seq<K>) -> bool {
    forall|i: int, j: int| 0 <= i < j < keys.len() ==> keys[i]@ != keys[j]@
}

/// With distinct keys, the position of a key's content is the position of
/// the key.
proof fn lemma_key_index_unique<K: MapKey>(keys: Seq<K>, k: K::V, i: int)
    requires
        distinct_keys(keys),
        0 <= i < keys.len(),
        keys[i]@ == k,
    ensures
        has_key(keys, k),
        key_index(keys, k) == i,
{
    assert(has_key(keys, k));
    let w = key_index(keys, k);
    assert(0 <= w < keys.len() && keys[w]@ == k);
    if w < i {
        assert(keys[w]@ != keys[i]@);
        assert(false);
    } else if i < w {
        assert(keys[i]@ != keys[w]@);
        assert(false);
    }
}

/// An association map from keys to values: one entry per key content.
pub struct AssocMap<K: MapKey, T> {
    keys: Vec<K>,
    vals: Vec<T>,
}

impl<K: MapKey, T> View for AssocMap<K, T> {
    type V = Map<<K as View>::V, T>;

    closed spec fn view(&self) -> Map<<K as View>::V, T> {
        Map::new(
            |k: <K as View>::V| has_key(self.keys@, k),
            |k: <K as View>::V| self.vals@[key_index(self.keys@, k)],
        )
    }
}

impl<K: MapKey, T> AssocMap<K, T> {
    /// The entries are consistent: one value per key, each key content once.
    pub closed spec fn wf(&self) -> bool {
        &&& self.keys@.len() == self.vals@.len()
        &&& distinct_keys(self.keys@)
    }

    /// An empty map.
    pub fn new() -> (r: Self)
        ensures
            r.wf(),
            r@ == Map::<<K as View>::V, T>::empty(),
    {
        let r = AssocMap { keys: Vec::new(), vals: Vec::new() };
        proof {
            assert(r@ =~= Map::<<K as View>::V, T>::empty());
        }
        r
    }

    /// The position of the entry whose key has the content of `k`.
    fn find_index(&self, k: &K) -> (r: Option<usize>)
        requires
            self.wf(),
        ensures
            match r {
                Some(i) => i < self.keys@.len() && self.keys@[i as int]@ == k@ && has_key(
                    self.keys@,
                    k@,
                ) && key_index(self.keys@, k@) == i,
                None => !has_key(self.keys@, k@),
            },
    {
        let mut i: usize = 0;
        while i < self.keys.len()
            invariant
                self.wf(),
                i <= self.keys@.len(),
                forall|j: int| 0 <= j < i ==> self.keys@[j]@ != k@,
            decreases self.keys@.len() - i,
        {
            if self.keys[i].key_eq(k) {
                proof {
                    lemma_key_index_unique(self.keys@, k@, i as int);
                }
                return Some(i);
            }
            i = i + 1;
        }
        None
    }

    /// Whether the map holds the key's content.
    pub fn contains(&self, k: &K) -> (r: bool)
        requires
            self.wf(),
        ensures
            r == self@.contains_key(k@),
    {
        self.find_index(k).is_some()
    }

    /// The value stored under the key's content, when there is one.
    pub fn get(&self, k: &K) -> (r: Option<&T>)
        requires
            self.wf(),
        ensures
            match r {
                Some(v) => self@.contains_key(k@) && *v == self@[k@],
                None => !self@.contains_key(k@),
            },
    {
        match self.find_index(k) {
            Some(i) => Some(&self.vals[i]),
            None => None,
        }
    }

    /// Store a value under a key: a fresh entry for unknown content, the
    /// replaced value for known content.
    pub fn insert(&mut self, k: K, v: T)
        requires
            old(self).wf(),
        ensures
            final(self).wf(),
            final(self)@ == old(self)@.insert(k@, v),
    {
        let ghost ks = self.keys@;
        let ghost vs = self.vals@;
        match self.find_index(&k) {
            Some(i) => {
                self.vals.set(i, v);
                proof {
                    assert forall|k2: <K as View>::V| #[trigger]
                        has_key(ks, k2) && k2 != k@ implies self.vals@[key_index(ks, k2)]
                        == vs[key_index(ks, k2)] by {
                        let w = key_index(ks, k2);
                        assert(0 <= w < ks.len() && ks[w]@ == k2);
                        assert(w != i);
                    }
                    assert(final(self)@ =~= old(self)@.insert(k@, v));
                }
            },
            None => {
                self.keys.push(k);
                self.vals.push(v);
                proof {
                    assert forall|a: int, b: int|
                        0 <= a < b < self.keys@.len() implies self.keys@[a]@
                        != self.keys@[b]@ by {
                        if b < ks.len() {
                            assert(self.keys@[a] == ks[a] && self.keys@[b] == ks[b]);
                        } else {
                            assert(self.keys@[a] == ks[a] && self.keys@[b]@ == k@);
                            assert(!has_key(ks, k@));
                        }
                    }
                    assert(self.wf());
                    assert forall|k2: <K as View>::V| #[trigger] has_key(self.keys@, k2) implies (
                    has_key(ks, k2) || k2 == k@) by {
                        let w = choose|w: int|
                            0 <= w < self.keys@.len() && self.keys@[w]@ == k2;
                        if w < ks.len() {
                            assert(ks[w]@ == k2);
                        }
                    }
                    assert forall|k2: <K as View>::V| #[trigger]
                        has_key(ks, k2) implies has_key(self.keys@, k2) && key_index(
                        self.keys@,
                        k2,
                    ) == key_index(ks, k2) by {
                        let w = key_index(ks, k2);
                        assert(0 <= w < ks.len() && ks[w]@ == k2);
                        assert(self.keys@[w]@ == k2);
                        lemma_key_index_unique(self.keys@, k2, w);
                        lemma_key_index_unique(ks, k2, w);
                    }
                    lemma_key_index_unique(self.keys@, k@, ks.len() as int);
                    assert(final(self)@ =~= old(self)@.insert(k@, v));
                }
            },
        }
    }

    /// Drop the entry whose key has the content of `k`, handing its value
    /// back; without such an entry the map is unchanged.
    pub fn remove(&mut self, k: &K) -> (r: Option<T>)
        requires
            old(self).wf(),
        ensures
            final(self).wf(),
            final(self)@ == old(self)@.remove(k@),
            match r {
                Some(v) => old(self)@.contains_key(k@) && v == old(self)@[k@],
                None => !old(self)@.contains_key(k@),
            },
    {
        let ghost ks = self.keys@;
        let ghost vs = self.vals@;
        match self.find_index(k) {
            Some(i) => {
                self.keys.remove(i);
                let v = self.vals.remove(i);
                proof {
                    assert forall|j: int| 0 <= j < self.keys@.len() implies self.keys@[j] == (if j
                        < i {
                        ks[j]
                    } else {
                        ks[j + 1]
                    }) && self.vals@[j] == (if j < i {
                        vs[j]
                    } else {
                        vs[j + 1]
                    }) by {}
                    assert forall|a: int, b: int|
                        0 <= a < b < self.keys@.len() implies self.keys@[a]@
                        != self.keys@[b]@ by {
                        let a2 = if a < i {
                            a
                        } else {
                            a + 1
                        };
                        let b2 = if b < i {
                            b
                        } else {
                            b + 1
                        };
                        assert(self.keys@[a] == ks[a2] && self.keys@[b] == ks[b2]);
                        assert(0 <= a2 < b2 < ks.len());
                    }
                    assert(self.wf());
                    assert forall|k2: <K as View>::V| #[trigger]
                        has_key(ks, k2) && k2 != k@ implies has_key(self.keys@, k2) && self.vals@[
                        key_index(self.keys@, k2)] == vs[key_index(ks, k2)] by {
                        let w = key_index(ks, k2);
                        lemma_key_index_unique(ks, k2, w);
                        assert(0 <= w < ks.len() && ks[w]@ == k2);
                        assert(w != i);
                        let w2 = if w < i {
                            w
                        } else {
                            w - 1
                        };
                        assert(self.keys@[w2]@ == k2);
                        lemma_key_index_unique(self.keys@, k2, w2);
                    }
                    assert forall|k2: <K as View>::V| #[trigger]
                        has_key(self.keys@, k2) implies has_key(ks, k2) && k2 != k@ by {
                        let w = choose|w: int|
                            0 <= w < self.keys@.len() && self.keys@[w]@ == k2;
                        let w2 = if w < i {
                            w
                        } else {
                            w + 1
                        };
                        assert(ks[w2]@ == k2);
                        assert(w2 != i);
                        lemma_key_index_unique(ks, k2, w2);
                        lemma_key_index_unique(ks, k@, i as int);
                    }
                    assert(final(self)@ =~= old(self)@.remove(k@));
                }
                Some(v)
            },
            None => {
                proof {
                    assert(final(self)@ =~= old(self)@.remove(k@));
                }
                None
            },
        }
    }
}

/// Whether a cache entry's last-used stamp lies at least `threshold`
/// seconds before `now`.
pub open spec fn is_expired(t: u64, now: u64, threshold: u64) -> bool {
    t + threshold <= now
}

impl<K: MapKey> AssocMap<K, u64> {
    /// The keys whose timestamp is expired against `now` and `threshold`.
    pub fn expired_keys(&self, now: u64, threshold: u64) -> (r: Vec<K>)
        requires
            self.wf(),
        ensures
            forall|m: int|
                0 <= m < r@.len() ==> self@.contains_key(#[trigger] r@[m]@) && is_expired(
                    self@[r@[m]@],
                    now,
                    threshold,
                ),
            forall|k: <K as View>::V|
                self@.contains_key(k) && is_expired(#[trigger] self@[k], now, threshold)
                    ==> exists|m: int| 0 <= m < r@.len() && r@[m]@ == k,
    {
        let mut r: Vec<K> = Vec::new();
        let mut i: usize = 0;
        while i < self.keys.len()
            invariant
                self.wf(),
                i <= self.keys@.len(),
                forall|m: int|
                    0 <= m < r@.len() ==> self@.contains_key(#[trigger] r@[m]@) && is_expired(
                        self@[r@[m]@],
                        now,
                        threshold,
                    ),
                forall|j: int|
                    0 <= j < i && is_expired(#[trigger] self.vals@[j], now, threshold)
                        ==> exists|m: int| 0 <= m < r@.len() && r@[m]@ == self.keys@[j]@,
            decreases self.keys@.len() - i,
        {
            let expired: bool = {
                let t: u64 = self.vals[i];
                threshold <= now && t <= now - threshold
            };
            if expired {
                let ghost prev = r@;
                r.push(self.keys[i].key_clone());
                proof {
                    lemma_key_index_unique(self.keys@, self.keys@[i as int]@, i as int);
                    assert(r@[r@.len() - 1]@ == self.keys@[i as int]@);
                    assert forall|j: int|
                        0 <= j < i + 1 && is_expired(#[trigger] self.vals@[j], now, threshold)
                            implies exists|m: int|
                            0 <= m < r@.len() && r@[m]@ == self.keys@[j]@ by {
                        if j < i {
                            let m0 = choose|m: int| 0 <= m < prev.len() && prev[m]@ == self.keys@[j]@;
                            assert(r@[m0]@ == self.keys@[j]@);
                        } else {
                            assert(r@[r@.len() - 1]@ == self.keys@[j]@);
                        }
                    }
                }
            } else {
                proof {
                    assert(!is_expired(self.vals@[i as int], now, threshold));
                }
            }
            i = i + 1;
        }
        proof {
            assert forall|k: <K as View>::V|
                self@.contains_key(k) && is_expired(#[trigger] self@[k], now, threshold)
                    implies exists|m: int| 0 <= m < r@.len() && r@[m]@ == k by {
                let w = key_index(self.keys@, k);
                assert(0 <= w < self.keys@.len() && self.keys@[w]@ == k);
                assert(self@[k] == self.vals@[w]);
            }
        }
        r
    }
}

} // verus!
