//! A finite map keyed by byte strings, kept as two parallel vectors.
use vstd::prelude::*;

use crate::bytes::bytes_eq;

verus! {

/// A map from byte strings to values. Each key occurs once.
pub struct ByteMap<V> {
    pub keys: Vec<Vec<u8>>,
    pub vals: Vec<V>,
}

impl<V: View> ByteMap<V> {
    /// Both vectors have one entry per key, and no key occurs twice.
    pub open spec fn wf(&self) -> bool {
        &&& self.keys@.len() == self.vals@.len()
        &&& forall|i: int, j: int|
            0 <= i < j < self.keys@.len() ==> #[trigger] self.keys@[i]@ != #[trigger] self.keys@[j]@
    }

    /// Whether `k` is a key of the map.
    pub open spec fn has_key(&self, k: Seq<u8>) -> bool {
        exists|i: int| 0 <= i < self.keys@.len() && #[trigger] self.keys@[i]@ == k
    }

    /// The position of key `k`.
    pub open spec fn key_index(&self, k: Seq<u8>) -> int {
        choose|i: int| 0 <= i < self.keys@.len() && #[trigger] self.keys@[i]@ == k
    }

    /// The map that the two vectors hold.
    pub open spec fn map(&self) -> Map<Seq<u8>, V::V> {
        Map::new(|k: Seq<u8>| self.has_key(k), |k: Seq<u8>| self.vals@[self.key_index(k)]@)
    }

    /// An empty map.
    pub fn new() -> (r: Self)
        ensures
            r.wf(),
            r.map() == Map::<Seq<u8>, V::V>::empty(),
    {
        let r = ByteMap { keys: Vec::new(), vals: Vec::new() };
        assert(r.map() =~= Map::<Seq<u8>, V::V>::empty());
        r
    }

    /// The number of keys.
    pub fn len(&self) -> (r: usize)
        ensures
            r == self.keys@.len(),
    {
        self.keys.len()
    }

    /// The position of key `k`, if it is a key.
    pub fn find(&self, k: &[u8]) -> (r: Option<usize>)
        requires
            self.wf(),
        ensures
            r matches Some(i) ==> i < self.keys@.len() && self.keys@[i as int]@ == k@,
            r is None ==> !self.map().contains_key(k@),
    {
        let mut i: usize = 0;
        while i < self.keys.len()
            invariant
                i <= self.keys@.len(),
                forall|j: int| 0 <= j < i ==> #[trigger] self.keys@[j]@ != k@,
            decreases self.keys@.len() - i,
        {
            if bytes_eq(self.keys[i].as_slice(), k) {
                return Some(i);
            }
            i = i + 1;
        }
        None
    }

    /// The entry at position `i` decides the value of its key.
    pub proof fn lemma_entry(&self, i: int)
        requires
            self.wf(),
            0 <= i < self.keys@.len(),
        ensures
            self.map().contains_key(self.keys@[i]@),
            self.key_index(self.keys@[i]@) == i,
            self.map()[self.keys@[i]@] == self.vals@[i]@,
    {
        let k = self.keys@[i]@;
        assert(self.has_key(k));
        let j = self.key_index(k);
        if j != i {
            if j < i {
                assert(self.keys@[j]@ != self.keys@[i]@);
            } else {
                assert(self.keys@[i]@ != self.keys@[j]@);
            }
        }
    }

    /// Maps `k` to `v`, in place of any value that `k` had.
    pub fn insert(&mut self, k: Vec<u8>, v: V)
        requires
            old(self).wf(),
        ensures
            final(self).wf(),
            final(self).map() == old(self).map().insert(k@, v@),
    {
        match self.find(k.as_slice()) {
            Some(i) => {
                let ghost kk = k@;
                self.vals.set(i, v);
                assert forall|j: int| 0 <= j < self.keys@.len() implies {
                    &&& self.map().contains_key(#[trigger] self.keys@[j]@)
                    &&& self.map()[self.keys@[j]@] == (if j == i {
                        v@
                    } else {
                        old(self).vals@[j]@
                    })
                } by {
                    self.lemma_entry(j);
                }
                assert forall|j: int| 0 <= j < old(self).keys@.len() implies #[trigger] old(
                    self,
                ).map()[old(self).keys@[j]@] == old(self).vals@[j]@ by {
                    old(self).lemma_entry(j);
                }
                assert forall|key: Seq<u8>|
                    self.map().contains_key(key) implies #[trigger] old(self).map().insert(
                    kk,
                    v@,
                ).contains_key(key) && self.map()[key] == old(self).map().insert(kk, v@)[key] by {
                    let j = self.key_index(key);
                    self.lemma_entry(j);
                    if j != i {
                        assert(old(self).keys@[j]@ == key);
                        old(self).lemma_entry(j);
                    }
                }
                assert forall|key: Seq<u8>|
                    old(self).map().insert(kk, v@).contains_key(
                        key,
                    ) implies #[trigger] self.map().contains_key(key) by {
                    if key != kk {
                        let j = old(self).key_index(key);
                        assert(self.keys@[j]@ == key);
                    } else {
                        assert(self.keys@[i as int]@ == key);
                    }
                }
                assert(self.map() =~= old(self).map().insert(kk, v@));
            },
            None => {
                let ghost kk = k@;
                let ghost n = self.keys@.len();
                self.keys.push(k);
                self.vals.push(v);
                assert(self.wf()) by {
                    assert forall|i: int, j: int|
                        0 <= i < j < self.keys@.len() implies #[trigger] self.keys@[i]@
                        != #[trigger] self.keys@[j]@ by {
                        if j == n {
                            assert(!old(self).has_key(kk));
                            assert(old(self).keys@[i]@ == self.keys@[i]@);
                        } else {
                            assert(old(self).keys@[i]@ != old(self).keys@[j]@);
                        }
                    }
                }
                assert forall|key: Seq<u8>|
                    self.map().contains_key(key) implies #[trigger] old(self).map().insert(
                    kk,
                    v@,
                ).contains_key(key) && self.map()[key] == old(self).map().insert(kk, v@)[key] by {
                    let j = self.key_index(key);
                    self.lemma_entry(j);
                    if j != n {
                        assert(old(self).keys@[j]@ == key);
                        old(self).lemma_entry(j);
                    }
                }
                assert forall|key: Seq<u8>|
                    old(self).map().insert(kk, v@).contains_key(
                        key,
                    ) implies #[trigger] self.map().contains_key(key) by {
                    if key != kk {
                        let j = old(self).key_index(key);
                        assert(self.keys@[j]@ == key);
                    } else {
                        assert(self.keys@[n as int]@ == key);
                    }
                }
                assert(self.map() =~= old(self).map().insert(kk, v@));
            },
        }
    }

    /// Removes key `k` and returns its value, if it was a key.
    pub fn remove(&mut self, k: &[u8]) -> (r: Option<V>)
        requires
            old(self).wf(),
        ensures
            final(self).wf(),
            final(self).map() == old(self).map().remove(k@),
            r matches Some(v) ==> old(self).map().contains_key(k@) && v@ == old(self).map()[k@],
            r is None ==> !old(self).map().contains_key(k@),
    {
        match self.find(k) {
            None => {
                assert(self.map() =~= old(self).map().remove(k@));
                None
            },
            Some(i) => {
                proof {
                    old(self).lemma_entry(i as int);
                }
                let ghost kk = k@;
                self.keys.remove(i);
                let v = self.vals.remove(i);
                assert(self.wf()) by {
                    assert forall|a: int, b: int|
                        0 <= a < b < self.keys@.len() implies #[trigger] self.keys@[a]@
                        != #[trigger] self.keys@[b]@ by {
                        let oa = if a < i {
                            a
                        } else {
                            a + 1
                        };
                        let ob = if b < i {
                            b
                        } else {
                            b + 1
                        };
                        assert(old(self).keys@[oa]@ != old(self).keys@[ob]@);
                    }
                }
                assert forall|key: Seq<u8>|
                    self.map().contains_key(key) implies #[trigger] old(self).map().remove(
                    kk,
                ).contains_key(key) && self.map()[key] == old(self).map().remove(kk)[key] by {
                    let j = self.key_index(key);
                    self.lemma_entry(j);
                    let oj = if j < i {
                        j
                    } else {
                        j + 1
                    };
                    assert(old(self).keys@[oj]@ == key);
                    old(self).lemma_entry(oj);
                    assert(oj != i);
                }
                assert forall|key: Seq<u8>|
                    old(self).map().remove(kk).contains_key(
                        key,
                    ) implies #[trigger] self.map().contains_key(key) by {
                    let oj = old(self).key_index(key);
                    old(self).lemma_entry(oj);
                    assert(oj != i);
                    let j = if oj < i {
                        oj
                    } else {
                        oj - 1
                    };
                    assert(self.keys@[j]@ == key);
                }
                assert(self.map() =~= old(self).map().remove(kk));
                Some(v)
            },
        }
    }
}

} // verus!
