//! The metadata of one vector: values under distinct string keys.

use super::types::{MetadataValue, ValueView};
use vstd::prelude::*;
use vstd::utf8::{encode_utf8, encode_utf8_decode_utf8};

verus! {

/// The characters of each string.
pub open spec fn key_views(keys: Seq<String>) -> Seq<Seq<char>> {
    keys.map_values(|s: String| s@)
}

/// In a sequence without duplicates, the position of an element is the one
/// it stands at.
pub proof fn lemma_index_of_unique<A>(s: Seq<A>, i: int)
    requires
        s.no_duplicates(),
        0 <= i < s.len(),
    ensures
        s.index_of(s[i]) == i,
{
    assert(s.contains(s[i]));
}

/// Whether two strings have the same characters (compared byte by byte).
pub fn str_equal(a: &str, b: &str) -> (r: bool)
    ensures
        r == (a@ == b@),
{
    let x = a.as_bytes();
    let y = b.as_bytes();
    proof {
        encode_utf8_decode_utf8(a@);
        encode_utf8_decode_utf8(b@);
    }
    if x.len() != y.len() {
        return false;
    }
    let n = x.len();
    let mut i: usize = 0;
    while i < n
        invariant
            i <= n,
            n == x@.len(),
            n == y@.len(),
            x@ == encode_utf8(a@),
            y@ == encode_utf8(b@),
            forall|k: int| 0 <= k < i ==> #[trigger] x@[k] == y@[k],
        decreases n - i,
    {
        if x[i] != y[i] {
            return false;
        }
        i = i + 1;
    }
    assert(x@ =~= y@);
    true
}

/// The values of one vector under their keys, in insertion order.
#[derive(Debug)]
pub struct MetadataEntries {
    keys: Vec<String>,
    values: Vec<MetadataValue>,
}

impl View for MetadataEntries {
    type V = Map<Seq<char>, ValueView>;

    closed spec fn view(&self) -> Map<Seq<char>, ValueView> {
        let ks = key_views(self.keys@);
        Map::new(|k: Seq<char>| ks.contains(k), |k: Seq<char>| self.values@[ks.index_of(k)]@)
    }
}

impl Clone for MetadataEntries {
    fn clone(&self) -> (r: Self)
        ensures
            r@ == self@,
    {
        self.duplicate()
    }
}

impl MetadataEntries {
    #[verifier::type_invariant]
    spec fn wf(&self) -> bool {
        &&& self.keys@.len() == self.values@.len()
        &&& key_views(self.keys@).no_duplicates()
    }

    /// The keys in insertion order.
    pub closed spec fn key_seq(&self) -> Seq<Seq<char>> {
        key_views(self.keys@)
    }

    /// An empty set of entries.
    pub fn new() -> (e: Self)
        ensures
            e@ == Map::<Seq<char>, ValueView>::empty(),
    {
        let e = MetadataEntries { keys: Vec::new(), values: Vec::new() };
        assert(e@ =~= Map::<Seq<char>, ValueView>::empty());
        e
    }

    /// The number of keys (the keys in insertion order hold no duplicates
    /// and are those of the map).
    pub fn len(&self) -> (n: usize)
        ensures
            n == self@.len(),
            n == self.key_seq().len(),
            self.key_seq().no_duplicates(),
            self.key_seq().to_set() == self@.dom(),
            self@.dom().finite(),
    {
        proof {
            use_type_invariant(self);
            let ks = self.key_seq();
            assert(self@.dom() =~= ks.to_set());
            ks.unique_seq_to_set();
        }
        self.keys.len()
    }

    /// Whether there are no keys.
    pub fn is_empty(&self) -> (b: bool)
        ensures
            b == (self@.len() == 0),
    {
        self.len() == 0
    }

    /// The position of `key`, if present.
    fn find(&self, key: &str) -> (r: Option<usize>)
        ensures
            match r {
                Some(i) => i < self.key_seq().len() && i < self.values@.len() && self.key_seq()[i as int] == key@
                    && self@.contains_key(key@) && self@[key@] == self.values@[i as int]@,
                None => !self@.contains_key(key@),
            },
    {
        proof {
            use_type_invariant(self);
        }
        let n = self.keys.len();
        let mut i: usize = 0;
        while i < n
            invariant
                i <= n,
                n == self.keys@.len(),
                n == self.values@.len(),
                key_views(self.keys@).no_duplicates(),
                forall|k: int| 0 <= k < i ==> #[trigger] self.keys@[k]@ != key@,
            decreases n - i,
        {
            if str_equal(self.keys[i].as_str(), key) {
                proof {
                    lemma_index_of_unique(self.key_seq(), i as int);
                    assert(self.key_seq()[i as int] == key@);
                }
                return Some(i);
            }
            i = i + 1;
        }
        proof {
            if self.key_seq().contains(key@) {
                let j = choose|j: int| 0 <= j < self.key_seq().len() && self.key_seq()[j] == key@;
                assert(self.keys@[j]@ == key@);
            }
        }
        None
    }

    /// Whether a value is stored under `key`.
    pub fn contains_key(&self, key: &str) -> (b: bool)
        ensures
            b == self@.contains_key(key@),
    {
        self.find(key).is_some()
    }

    /// The value stored under `key`, if any.
    pub fn get(&self, key: &str) -> (r: Option<&MetadataValue>)
        ensures
            match r {
                Some(v) => self@.contains_key(key@) && v@ == self@[key@],
                None => !self@.contains_key(key@),
            },
    {
        match self.find(key) {
            Some(i) => Some(&self.values[i]),
            None => None,
        }
    }

    /// The key at position `i` of the insertion order.
    pub fn key_at(&self, i: usize) -> (k: &String)
        requires
            i < self.key_seq().len(),
        ensures
            k@ == self.key_seq()[i as int],
    {
        proof {
            use_type_invariant(self);
        }
        &self.keys[i]
    }

    /// The value at position `i` of the insertion order.
    pub fn value_at(&self, i: usize) -> (v: &MetadataValue)
        requires
            i < self.key_seq().len(),
        ensures
            self@.contains_key(self.key_seq()[i as int]),
            v@ == self@[self.key_seq()[i as int]],
    {
        proof {
            use_type_invariant(self);
            lemma_index_of_unique(self.key_seq(), i as int);
        }
        &self.values[i]
    }

    /// Stores `value` under `key`, replacing any value stored there.
    pub fn insert(&mut self, key: String, value: MetadataValue)
        ensures
            final(self)@ == old(self)@.insert(key@, value@),
    {
        proof {
            use_type_invariant(&*self);
        }
        let found = self.find(key.as_str());
        let mut tmp = MetadataEntries::new();
        std::mem::swap(self, &mut tmp);
        let MetadataEntries { mut keys, mut values } = tmp;
        let ghost old_map = old(self)@;
        let ghost old_keys = key_views(keys@);
        let ghost old_values = values@;
        match found {
            Some(i) => {
                values.set(i, value);
                let e = MetadataEntries { keys, values };
                proof {
                    assert(key_views(e.keys@) == old_keys);
                    assert forall|k: Seq<char>| #[trigger] e@.contains_key(k) <==> old_map.insert(
                        key@,
                        value@,
                    ).contains_key(k) by {}
                    assert forall|k: Seq<char>| e@.contains_key(k) implies #[trigger] e@[k]
                        == old_map.insert(key@, value@)[k] by {
                        let j = old_keys.index_of(k);
                        lemma_index_of_unique(old_keys, i as int);
                        if k != key@ {
                            assert(old_keys.contains(k));
                            assert(old_keys[j] == k);
                            assert(j != i);
                        }
                    }
                    assert(e@ =~= old_map.insert(key@, value@));
                }
                *self = e;
            },
            None => {
                let ghost kv = key@;
                keys.push(key);
                values.push(value);
                proof {
                    let nk = key_views(keys@);
                    assert(nk =~= old_keys.push(kv));
                    assert(!old_keys.contains(kv));
                    assert(nk.no_duplicates()) by {
                        assert forall|a: int, b: int|
                            0 <= a < nk.len() && 0 <= b < nk.len() && a != b implies nk[a]
                            != nk[b] by {
                            if a < old_keys.len() && b < old_keys.len() {
                            } else if a == old_keys.len() {
                                assert(nk[b] == old_keys[b]);
                            } else {
                                assert(nk[a] == old_keys[a]);
                            }
                        }
                    }
                }
                let e = MetadataEntries { keys, values };
                proof {
                    let nk = key_views(e.keys@);
                    assert forall|k: Seq<char>| #[trigger] e@.contains_key(k) <==> old_map.insert(
                        kv,
                        value@,
                    ).contains_key(k) by {
                        if old_keys.contains(k) {
                            let j = old_keys.index_of(k);
                            assert(nk[j] == k);
                        }
                        if k == kv {
                            assert(nk[old_keys.len() as int] == k);
                        }
                        if nk.contains(k) && k != kv {
                            let j = nk.index_of(k);
                            assert(j != old_keys.len());
                            assert(old_keys[j] == k);
                        }
                    }
                    assert forall|k: Seq<char>| e@.contains_key(k) implies #[trigger] e@[k]
                        == old_map.insert(kv, value@)[k] by {
                        let n = old_keys.len() as int;
                        if k == kv {
                            lemma_index_of_unique(nk, n);
                        } else {
                            let j = old_keys.index_of(k);
                            assert(old_keys.contains(k)) by {
                                let jj = nk.index_of(k);
                                assert(nk[jj] == k);
                                assert(jj != n);
                                assert(old_keys[jj] == k);
                            }
                            lemma_index_of_unique(nk, j);
                            assert(nk[j] == k);
                        }
                    }
                    assert(e@ =~= old_map.insert(kv, value@));
                }
                *self = e;
            },
        }
    }

    /// Removes the value stored under `key`; whether there was one.
    pub fn remove(&mut self, key: &str) -> (removed: bool)
        ensures
            removed == old(self)@.contains_key(key@),
            final(self)@ == old(self)@.remove(key@),
    {
        proof {
            use_type_invariant(&*self);
        }
        let found = self.find(key);
        match found {
            None => {
                assert(old(self)@.remove(key@) =~= old(self)@);
                false
            },
            Some(i) => {
                let mut tmp = MetadataEntries::new();
                std::mem::swap(self, &mut tmp);
                let MetadataEntries { mut keys, mut values } = tmp;
                let ghost old_map = old(self)@;
                let ghost old_keys = key_views(keys@);
                let ghost old_values = values@;
                keys.remove(i);
                values.remove(i);
                proof {
                    let nk = key_views(keys@);
                    assert(nk =~= old_keys.remove(i as int));
                    assert(nk.no_duplicates()) by {
                        assert forall|a: int, b: int|
                            0 <= a < nk.len() && 0 <= b < nk.len() && a != b implies nk[a]
                            != nk[b] by {
                            let a2 = if a < i { a } else { a + 1 };
                            let b2 = if b < i { b } else { b + 1 };
                            assert(nk[a] == old_keys[a2]);
                            assert(nk[b] == old_keys[b2]);
                        }
                    }
                }
                let e = MetadataEntries { keys, values };
                proof {
                    let nk = key_views(e.keys@);
                    lemma_index_of_unique(old_keys, i as int);
                    assert forall|k: Seq<char>| #[trigger] e@.contains_key(k) <==> old_map.remove(
                        key@,
                    ).contains_key(k) by {
                        if e@.contains_key(k) {
                            let a = nk.index_of(k);
                            let a2 = if a < i { a } else { a + 1 };
                            assert(old_keys[a2] == k);
                            assert(a2 != i);
                        }
                        if old_map.remove(key@).contains_key(k) {
                            let j = old_keys.index_of(k);
                            assert(old_keys[j] == k);
                            assert(j != i);
                            let j2 = if j < i { j } else { j - 1 };
                            assert(nk[j2] == k);
                        }
                    }
                    assert forall|k: Seq<char>| e@.contains_key(k) implies #[trigger] e@[k]
                        == old_map.remove(key@)[k] by {
                        let a = nk.index_of(k);
                        let a2 = if a < i { a } else { a + 1 };
                        assert(old_keys[a2] == k);
                        lemma_index_of_unique(old_keys, a2);
                    }
                    assert(e@ =~= old_map.remove(key@));
                }
                *self = e;
                true
            },
        }
    }

    /// Copies of the keys, in insertion order.
    pub fn keys(&self) -> (r: Vec<String>)
        ensures
            key_views(r@) == self.key_seq(),
    {
        proof {
            use_type_invariant(self);
        }
        let n = self.keys.len();
        let mut r: Vec<String> = Vec::new();
        let mut i: usize = 0;
        while i < n
            invariant
                i <= n,
                n == self.keys@.len(),
                r@.len() == i,
                forall|k: int| 0 <= k < i ==> #[trigger] r@[k]@ == self.keys@[k]@,
            decreases n - i,
        {
            r.push(self.keys[i].clone());
            i = i + 1;
        }
        assert(key_views(r@) =~= self.key_seq());
        r
    }

    /// A copy of the entries.
    pub fn duplicate(&self) -> (r: Self)
        ensures
            r@ == self@,
            r.key_seq() == self.key_seq(),
    {
        proof {
            use_type_invariant(self);
        }
        let keys = self.keys.clone();
        let values = self.values.clone();
        proof {
            assert(key_views(keys@) =~= key_views(self.keys@)) by {
                assert forall|i: int| 0 <= i < keys@.len() implies keys@[i]@ == self.keys@[i]@ by {
                    assert(cloned::<String>(self.keys@[i], keys@[i]));
                }
            }
            assert forall|i: int| 0 <= i < values@.len() implies #[trigger] values@[i]@
                == self.values@[i]@ by {
                assert(cloned::<MetadataValue>(self.values@[i], values@[i]));
            }
        }
        let r = MetadataEntries { keys, values };
        proof {
            assert(r@ =~= self@) by {
                assert forall|k: Seq<char>| #[trigger] r@.contains_key(k) implies r@[k] == self@[k] by {
                    let ks = key_views(self.keys@);
                    let j = ks.index_of(k);
                    assert(ks.contains(k));
                    assert(ks[j] == k);
                }
            }
        }
        r
    }
}

} // verus!
