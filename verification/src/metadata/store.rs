//! The metadata store: for each vector, values under string keys.
//!
//! Vectors are kept in the order they first received metadata; a vector whose
//! last key is deleted leaves the store.

use super::entries::{lemma_index_of_unique, MetadataEntries};
use super::error::MetadataError;
use super::types::{view_eq, MetadataValue, ValueView};
use super::validation::{
    key_result, valid_key, valid_value, validate_key, validate_value, value_result,
    MAX_KEYS_PER_VECTOR,
};
use vstd::prelude::*;
use vstd::std_specs::cmp::PartialEqSpecImpl;

verus! {

/// What a store holds: for each vector, its values under their keys.
pub type StoreMap = Map<u32, Map<Seq<char>, ValueView>>;

/// The values of vector `id` (empty when it has none).
pub open spec fn entries_of(m: StoreMap, id: u32) -> Map<Seq<char>, ValueView> {
    if m.contains_key(id) {
        m[id]
    } else {
        Map::empty()
    }
}

/// The map held by parallel sequences of vector IDs and their entries.
pub open spec fn store_view(ids: Seq<u32>, maps: Seq<MetadataEntries>) -> StoreMap {
    Map::new(|id: u32| ids.contains(id), |id: u32| maps[ids.index_of(id)]@)
}

/// Replacing the entries at position `i` replaces the entries of `ids[i]`.
proof fn lemma_view_update(ids: Seq<u32>, maps: Seq<MetadataEntries>, i: int, e: MetadataEntries)
    requires
        ids.no_duplicates(),
        ids.len() == maps.len(),
        0 <= i < ids.len(),
    ensures
        store_view(ids, maps.update(i, e)) == store_view(ids, maps).insert(ids[i], e@),
{
    let a = store_view(ids, maps.update(i, e));
    let b = store_view(ids, maps).insert(ids[i], e@);
    assert forall|id: u32| #[trigger] a.contains_key(id) <==> b.contains_key(id) by {
        if id == ids[i] {
            assert(ids.contains(id));
        }
    }
    assert forall|id: u32| a.contains_key(id) implies #[trigger] a[id] == b[id] by {
        let j = ids.index_of(id);
        assert(ids[j] == id);
        lemma_index_of_unique(ids, i);
        lemma_index_of_unique(ids, j);
    }
    assert(a =~= b);
}

/// Appending a new vector ID with its entries adds it to the map.
proof fn lemma_view_push(ids: Seq<u32>, maps: Seq<MetadataEntries>, id: u32, e: MetadataEntries)
    requires
        ids.no_duplicates(),
        ids.len() == maps.len(),
        !ids.contains(id),
    ensures
        ids.push(id).no_duplicates(),
        store_view(ids.push(id), maps.push(e)) == store_view(ids, maps).insert(id, e@),
{
    let nids = ids.push(id);
    assert forall|a: int, b: int| 0 <= a < nids.len() && 0 <= b < nids.len() && a != b implies nids[a]
        != nids[b] by {
        if a < ids.len() && b < ids.len() {
        } else if a == ids.len() {
            assert(nids[b] == ids[b]);
        } else {
            assert(nids[a] == ids[a]);
        }
    }
    let x = store_view(nids, maps.push(e));
    let y = store_view(ids, maps).insert(id, e@);
    assert forall|k: u32| #[trigger] x.contains_key(k) <==> y.contains_key(k) by {
        if ids.contains(k) {
            let j = ids.index_of(k);
            assert(nids[j] == k);
        }
        if k == id {
            assert(nids[ids.len() as int] == k);
        }
        if nids.contains(k) && k != id {
            let j = nids.index_of(k);
            assert(ids[j] == k);
        }
    }
    assert forall|k: u32| x.contains_key(k) implies #[trigger] x[k] == y[k] by {
        if k == id {
            lemma_index_of_unique(nids, ids.len() as int);
        } else {
            let j = nids.index_of(k);
            assert(nids[j] == k);
            assert(j != ids.len());
            assert(ids[j] == k);
            lemma_index_of_unique(ids, j);
        }
    }
    assert(x =~= y);
}

/// Removing position `i` removes the vector `ids[i]` from the map.
proof fn lemma_view_remove(ids: Seq<u32>, maps: Seq<MetadataEntries>, i: int)
    requires
        ids.no_duplicates(),
        ids.len() == maps.len(),
        0 <= i < ids.len(),
    ensures
        ids.remove(i).no_duplicates(),
        store_view(ids.remove(i), maps.remove(i)) == store_view(ids, maps).remove(ids[i]),
{
    let nids = ids.remove(i);
    assert forall|a: int, b: int| 0 <= a < nids.len() && 0 <= b < nids.len() && a != b implies nids[a]
        != nids[b] by {
        let a2 = if a < i { a } else { a + 1 };
        let b2 = if b < i { b } else { b + 1 };
        assert(nids[a] == ids[a2]);
        assert(nids[b] == ids[b2]);
    }
    let x = store_view(nids, maps.remove(i));
    let y = store_view(ids, maps).remove(ids[i]);
    assert forall|k: u32| #[trigger] x.contains_key(k) <==> y.contains_key(k) by {
        if nids.contains(k) {
            let a = nids.index_of(k);
            let a2 = if a < i { a } else { a + 1 };
            assert(ids[a2] == k);
            assert(a2 != i);
        }
        if y.contains_key(k) {
            let j = ids.index_of(k);
            assert(ids[j] == k);
            assert(j != i);
            let j2 = if j < i { j } else { j - 1 };
            assert(nids[j2] == k);
        }
    }
    assert forall|k: u32| x.contains_key(k) implies #[trigger] x[k] == y[k] by {
        let a = nids.index_of(k);
        assert(nids[a] == k);
        let a2 = if a < i { a } else { a + 1 };
        assert(ids[a2] == k);
        lemma_index_of_unique(ids, a2);
    }
    assert(x =~= y);
}

/// Metadata of vectors: values under string keys.
#[derive(Debug)]
pub struct MetadataStore {
    ids: Vec<u32>,
    maps: Vec<MetadataEntries>,
}

impl View for MetadataStore {
    type V = StoreMap;

    closed spec fn view(&self) -> StoreMap {
        store_view(self.ids@, self.maps@)
    }
}

impl MetadataStore {
    #[verifier::type_invariant]
    spec fn wf(&self) -> bool {
        &&& self.ids@.len() == self.maps@.len()
        &&& self.ids@.no_duplicates()
    }

    /// The vector IDs in the order they first received metadata.
    pub closed spec fn id_seq(&self) -> Seq<u32> {
        self.ids@
    }

    /// An empty store.
    pub fn new() -> (s: Self)
        ensures
            s@ == StoreMap::empty(),
    {
        let s = MetadataStore { ids: Vec::new(), maps: Vec::new() };
        assert(s@ =~= StoreMap::empty());
        s
    }

    /// An empty store with room for `capacity` vectors.
    pub fn with_capacity(capacity: usize) -> (s: Self)
        ensures
            s@ == StoreMap::empty(),
    {
        let s = MetadataStore { ids: Vec::with_capacity(capacity), maps: Vec::with_capacity(capacity) };
        assert(s@ =~= StoreMap::empty());
        s
    }

    /// The position of vector `id`, if it has metadata.
    fn find(&self, id: u32) -> (r: Option<usize>)
        ensures
            match r {
                Some(i) => i < self.ids@.len() && i < self.maps@.len() && self.ids@[i as int] == id
                    && self@.contains_key(id) && self@[id] == self.maps@[i as int]@,
                None => !self@.contains_key(id),
            },
    {
        proof {
            use_type_invariant(self);
        }
        let n = self.ids.len();
        let mut i: usize = 0;
        while i < n
            invariant
                i <= n,
                n == self.ids@.len(),
                n == self.maps@.len(),
                self.ids@.no_duplicates(),
                forall|k: int| 0 <= k < i ==> #[trigger] self.ids@[k] != id,
            decreases n - i,
        {
            if self.ids[i] == id {
                proof {
                    lemma_index_of_unique(self.ids@, i as int);
                }
                return Some(i);
            }
            i = i + 1;
        }
        None
    }

    /// The number of vectors with metadata.
    pub fn vector_count(&self) -> (n: usize)
        ensures
            n == self@.len(),
            n == self.id_seq().len(),
            self@.dom().finite(),
    {
        proof {
            use_type_invariant(self);
            assert(self@.dom() =~= self.ids@.to_set());
            self.ids@.unique_seq_to_set();
        }
        self.ids.len()
    }

    /// Whether no vector has metadata.
    pub fn is_empty(&self) -> (b: bool)
        ensures
            b == (self@ == StoreMap::empty()),
    {
        let n = self.vector_count();
        proof {
            if n != 0 {
                assert(self@.len() != 0);
                assert(self@ != StoreMap::empty());
            } else {
                assert(self@.dom() =~= Set::<u32>::empty());
                assert(self@ =~= StoreMap::empty());
            }
        }
        n == 0
    }

    /// Removes all metadata.
    pub fn clear(&mut self)
        ensures
            final(self)@ == StoreMap::empty(),
    {
        *self = MetadataStore::new();
    }

    /// The value of vector `id` under `key`, if any.
    pub fn get(&self, vector_id: u32, key: &str) -> (r: Option<&MetadataValue>)
        ensures
            match r {
                Some(v) => entries_of(self@, vector_id).contains_key(key@) && v@ == entries_of(
                    self@,
                    vector_id,
                )[key@],
                None => !entries_of(self@, vector_id).contains_key(key@),
            },
    {
        match self.find(vector_id) {
            Some(i) => self.maps[i].get(key),
            None => None,
        }
    }

    /// All values of vector `id`, if it has any.
    pub fn get_all(&self, vector_id: u32) -> (r: Option<&MetadataEntries>)
        ensures
            match r {
                Some(e) => self@.contains_key(vector_id) && e@ == self@[vector_id],
                None => !self@.contains_key(vector_id),
            },
    {
        match self.find(vector_id) {
            Some(i) => Some(&self.maps[i]),
            None => None,
        }
    }

    /// Whether vector `id` has a value under `key`.
    pub fn has_key(&self, vector_id: u32, key: &str) -> (b: bool)
        ensures
            b == entries_of(self@, vector_id).contains_key(key@),
    {
        match self.find(vector_id) {
            Some(i) => self.maps[i].contains_key(key),
            None => false,
        }
    }

    /// The keys of vector `id`, if it has any.
    pub fn keys(&self, vector_id: u32) -> (r: Option<Vec<String>>)
        ensures
            match r {
                Some(ks) => self@.contains_key(vector_id) && super::entries::key_views(ks@).no_duplicates()
                    && super::entries::key_views(ks@).to_set() == self@[vector_id].dom(),
                None => !self@.contains_key(vector_id),
            },
    {
        match self.find(vector_id) {
            Some(i) => {
                let e = &self.maps[i];
                let _ = e.len();
                Some(e.keys())
            },
            None => None,
        }
    }

    /// The number of keys of vector `id`.
    pub fn key_count(&self, vector_id: u32) -> (n: usize)
        ensures
            n == entries_of(self@, vector_id).len(),
    {
        match self.find(vector_id) {
            Some(i) => self.maps[i].len(),
            None => 0,
        }
    }

    /// The IDs of the vectors with metadata, each once.
    pub fn vector_ids(&self) -> (r: Vec<u32>)
        ensures
            r@.no_duplicates(),
            r@.to_set() == self@.dom(),
            r@ == self.id_seq(),
    {
        proof {
            use_type_invariant(self);
            assert(self@.dom() =~= self.ids@.to_set());
        }
        self.ids.clone()
    }

    /// Puts `e` in place of the entries at position `i` and returns those.
    fn swap_entries(&mut self, i: usize, e: MetadataEntries) -> (prev: MetadataEntries)
        requires
            i < old(self).id_seq().len(),
        ensures
            final(self).id_seq() == old(self).id_seq(),
            final(self)@ == old(self)@.insert(old(self).id_seq()[i as int], e@),
            old(self)@.contains_key(old(self).id_seq()[i as int]),
            prev@ == old(self)@[old(self).id_seq()[i as int]],
    {
        proof {
            use_type_invariant(&*self);
            lemma_index_of_unique(self.ids@, i as int);
        }
        let mut tmp = MetadataStore::new();
        std::mem::swap(self, &mut tmp);
        let MetadataStore { ids, mut maps } = tmp;
        let ghost old_maps = maps@;
        let prev = maps.remove(i);
        maps.insert(i, e);
        proof {
            assert(maps@ =~= old_maps.update(i as int, e));
            lemma_view_update(ids@, old_maps, i as int, e);
            assert(ids@.contains(ids@[i as int]));
        }
        *self = MetadataStore { ids, maps };
        prev
    }

    /// Adds a vector that has no metadata yet, with the entries `e`.
    fn push_entries(&mut self, id: u32, e: MetadataEntries)
        requires
            !old(self)@.contains_key(id),
        ensures
            final(self)@ == old(self)@.insert(id, e@),
            final(self).id_seq() == old(self).id_seq().push(id),
    {
        proof {
            use_type_invariant(&*self);
        }
        let mut tmp = MetadataStore::new();
        std::mem::swap(self, &mut tmp);
        let MetadataStore { mut ids, mut maps } = tmp;
        proof {
            lemma_view_push(ids@, maps@, id, e);
        }
        ids.push(id);
        maps.push(e);
        *self = MetadataStore { ids, maps };
    }

    /// Removes the vector at position `i` and returns its entries.
    fn remove_at(&mut self, i: usize) -> (prev: MetadataEntries)
        requires
            i < old(self).id_seq().len(),
        ensures
            old(self)@.contains_key(old(self).id_seq()[i as int]),
            final(self)@ == old(self)@.remove(old(self).id_seq()[i as int]),
            prev@ == old(self)@[old(self).id_seq()[i as int]],
    {
        proof {
            use_type_invariant(&*self);
            lemma_index_of_unique(self.ids@, i as int);
            assert(self.ids@.contains(self.ids@[i as int]));
        }
        let mut tmp = MetadataStore::new();
        std::mem::swap(self, &mut tmp);
        let MetadataStore { mut ids, mut maps } = tmp;
        proof {
            lemma_view_remove(ids@, maps@, i as int);
        }
        ids.remove(i);
        let prev = maps.remove(i);
        *self = MetadataStore { ids, maps };
        prev
    }

    /// Stores `value` under `key` for vector `vector_id`, replacing any value
    /// stored there. The key and value must be valid, and a vector holds at
    /// most 64 keys.
    pub fn insert(&mut self, vector_id: u32, key: &str, value: MetadataValue) -> (r: Result<
        (),
        MetadataError,
    >)
        ensures
            !valid_key(key@) ==> key_result(key@, r) && final(self)@ == old(self)@,
            valid_key(key@) && !valid_value(value) ==> value_result(value, r) && final(self)@ == old(
                self,
            )@,
            valid_key(key@) && valid_value(value) && too_many_keys(old(self)@, vector_id, key@)
                ==> r == Err::<(), MetadataError>(
                MetadataError::TooManyKeys {
                    vector_id,
                    count: entries_of(old(self)@, vector_id).len() as usize,
                    max: MAX_KEYS_PER_VECTOR,
                },
            ) && final(self)@ == old(self)@,
            valid_key(key@) && valid_value(value) && !too_many_keys(old(self)@, vector_id, key@)
                ==> r is Ok && final(self)@ == spec_insert(old(self)@, vector_id, key@, value@),
    {
        match validate_key(key) {
            Err(e) => return Err(e),
            Ok(()) => {},
        }
        match validate_value(&value) {
            Err(e) => return Err(e),
            Ok(()) => {},
        }
        match self.find(vector_id) {
            Some(i) => {
                let count = self.maps[i].len();
                if !self.maps[i].contains_key(key) && count >= MAX_KEYS_PER_VECTOR {
                    return Err(
                        MetadataError::TooManyKeys {
                            vector_id,
                            count,
                            max: MAX_KEYS_PER_VECTOR,
                        },
                    );
                }
                let mut e = self.swap_entries(i, MetadataEntries::new());
                e.insert(key.to_owned(), value);
                self.swap_entries(i, e);
                Ok(())
            },
            None => {
                let mut e = MetadataEntries::new();
                e.insert(key.to_owned(), value);
                self.push_entries(vector_id, e);
                Ok(())
            },
        }
    }

    /// Stores `value` under `key` for vector `vector_id` when the key and the
    /// value are valid, whatever the number of keys the vector already holds;
    /// returns whether it stored.
    pub(crate) fn insert_unlimited(&mut self, vector_id: u32, key: &str, value: MetadataValue) -> (stored: bool)
        ensures
            stored == (valid_key(key@) && valid_value(value)),
            stored ==> final(self)@ == spec_insert(old(self)@, vector_id, key@, value@),
            !stored ==> final(self)@ == old(self)@,
    {
        match validate_key(key) {
            Err(_) => return false,
            Ok(()) => {},
        }
        match validate_value(&value) {
            Err(_) => return false,
            Ok(()) => {},
        }
        match self.find(vector_id) {
            Some(i) => {
                let mut e = self.swap_entries(i, MetadataEntries::new());
                e.insert(key.to_owned(), value);
                self.swap_entries(i, e);
            },
            None => {
                let mut e = MetadataEntries::new();
                e.insert(key.to_owned(), value);
                self.push_entries(vector_id, e);
            },
        }
        true
    }

    /// Replaces the value of vector `vector_id` under `key`; the value must be
    /// valid and the key must already be present.
    pub fn update(&mut self, vector_id: u32, key: &str, value: MetadataValue) -> (r: Result<
        (),
        MetadataError,
    >)
        ensures
            !valid_value(value) ==> value_result(value, r) && final(self)@ == old(self)@,
            valid_value(value) && !old(self)@.contains_key(vector_id) ==> r == Err::<
                (),
                MetadataError,
            >(MetadataError::VectorNotFound { vector_id }) && final(self)@ == old(self)@,
            valid_value(value) && old(self)@.contains_key(vector_id) && !old(self)@[vector_id].contains_key(
                key@,
            ) ==> (r matches Err(MetadataError::KeyNotFound { vector_id: v, key: k }) && v
                == vector_id && k@ == key@) && final(self)@ == old(self)@,
            valid_value(value) && entries_of(old(self)@, vector_id).contains_key(key@) ==> r is Ok
                && final(self)@ == spec_insert(old(self)@, vector_id, key@, value@),
    {
        match validate_value(&value) {
            Err(e) => return Err(e),
            Ok(()) => {},
        }
        match self.find(vector_id) {
            None => Err(MetadataError::VectorNotFound { vector_id }),
            Some(i) => {
                if !self.maps[i].contains_key(key) {
                    return Err(MetadataError::KeyNotFound { vector_id, key: key.to_owned() });
                }
                let mut e = self.swap_entries(i, MetadataEntries::new());
                e.insert(key.to_owned(), value);
                self.swap_entries(i, e);
                Ok(())
            },
        }
    }

    /// Removes the value of vector `vector_id` under `key`; a vector left
    /// without keys leaves the store. Returns whether a value was removed.
    pub fn delete(&mut self, vector_id: u32, key: &str) -> (r: Result<bool, MetadataError>)
        ensures
            r == Ok::<bool, MetadataError>(entries_of(old(self)@, vector_id).contains_key(key@)),
            final(self)@ == spec_delete(old(self)@, vector_id, key@),
    {
        match self.find(vector_id) {
            None => {
                assert(spec_delete(old(self)@, vector_id, key@) == old(self)@);
                Ok(false)
            },
            Some(i) => {
                let mut e = self.swap_entries(i, MetadataEntries::new());
                let removed = e.remove(key);
                if e.is_empty() {
                    self.remove_at(i);
                    proof {
                        assert(final(self)@ =~= spec_delete(old(self)@, vector_id, key@));
                    }
                } else {
                    self.swap_entries(i, e);
                    proof {
                        assert(final(self)@ =~= spec_delete(old(self)@, vector_id, key@));
                    }
                }
                Ok(removed)
            },
        }
    }

    /// Removes all metadata of vector `vector_id`; whether it had any.
    pub fn delete_all(&mut self, vector_id: u32) -> (r: bool)
        ensures
            r == old(self)@.contains_key(vector_id),
            final(self)@ == old(self)@.remove(vector_id),
    {
        match self.find(vector_id) {
            None => {
                assert(old(self)@.remove(vector_id) =~= old(self)@);
                false
            },
            Some(i) => {
                self.remove_at(i);
                true
            },
        }
    }

    /// Adds the entries of `other`; where both have a value for the same
    /// vector and key, the value of `other` wins.
    pub fn merge_unchecked(&mut self, other: MetadataStore)
        ensures
            final(self)@ == merge_maps(old(self)@, other@),
    {
        proof {
            use_type_invariant(&other);
        }
        let n = other.ids.len();
        proof {
            assert(store_view(other.ids@.take(0), other.maps@.take(0)) =~= StoreMap::empty());
            assert(merge_maps(self@, StoreMap::empty()) =~= self@);
        }
        let mut i: usize = 0;
        while i < n
            invariant
                i <= n,
                n == other.ids@.len(),
                n == other.maps@.len(),
                other.ids@.no_duplicates(),
                self@ == merge_maps(
                    old(self)@,
                    store_view(other.ids@.take(i as int), other.maps@.take(i as int)),
                ),
            decreases n - i,
        {
            let id = other.ids[i];
            let e = &other.maps[i];
            let ghost before = self@;
            let ghost part = store_view(other.ids@.take(i as int), other.maps@.take(i as int));
            proof {
                assert(other.ids@.take(i + 1) =~= other.ids@.take(i as int).push(id));
                assert(other.maps@.take(i + 1) =~= other.maps@.take(i as int).push(*e));
                assert(!other.ids@.take(i as int).contains(id)) by {
                    if other.ids@.take(i as int).contains(id) {
                        let j = other.ids@.take(i as int).index_of(id);
                        assert(other.ids@[j] == other.ids@[i as int]);
                    }
                }
                assert(other.ids@.take(i as int).no_duplicates()) by {
                    assert forall|a: int, b: int|
                        0 <= a < i && 0 <= b < i && a != b implies other.ids@.take(i as int)[a]
                        != other.ids@.take(i as int)[b] by {
                        assert(other.ids@.take(i as int)[a] == other.ids@[a]);
                        assert(other.ids@.take(i as int)[b] == other.ids@[b]);
                    }
                }
                lemma_view_push(other.ids@.take(i as int), other.maps@.take(i as int), id, *e);
                assert(!part.contains_key(id));
            }
            match self.find(id) {
                Some(j) => {
                    let mut cur = self.swap_entries(j, MetadataEntries::new());
                    let m = e.len();
                    let ghost base = cur@;
                    let mut k: usize = 0;
                    while k < m
                        invariant
                            k <= m,
                            m == e.key_seq().len(),
                            e.key_seq().no_duplicates(),
                            e.key_seq().to_set() == e@.dom(),
                            cur@ == base.union_prefer_right(prefix_map(e@, e.key_seq(), k as int)),
                        decreases m - k,
                    {
                        let key = e.key_at(k).clone();
                        let value = e.value_at(k).clone();
                        proof {
                            assert(prefix_map(e@, e.key_seq(), k + 1) =~= prefix_map(
                                e@,
                                e.key_seq(),
                                k as int,
                            ).insert(e.key_seq()[k as int], e@[e.key_seq()[k as int]])) by {
                                let ks = e.key_seq();
                                assert forall|q: Seq<char>| #[trigger] ks.take(k + 1).contains(q)
                                    <==> (ks.take(k as int).contains(q) || q == ks[k as int]) by {
                                    if ks.take(k + 1).contains(q) {
                                        let w = ks.take(k + 1).index_of(q);
                                        if w < k {
                                            assert(ks.take(k as int)[w] == q);
                                        }
                                    }
                                    if ks.take(k as int).contains(q) {
                                        let w = ks.take(k as int).index_of(q);
                                        assert(ks.take(k + 1)[w] == q);
                                    }
                                    if q == ks[k as int] {
                                        assert(ks.take(k + 1)[k as int] == q);
                                    }
                                }
                            }
                        }
                        cur.insert(key, value);
                        proof {
                            assert(cur@ =~= base.union_prefer_right(
                                prefix_map(e@, e.key_seq(), k + 1),
                            ));
                        }
                        k = k + 1;
                    }
                    proof {
                        assert(prefix_map(e@, e.key_seq(), m as int) =~= e@) by {
                            assert(e.key_seq().take(m as int) =~= e.key_seq());
                        }
                    }
                    self.swap_entries(j, cur);
                    proof {
                        assert(self@ =~= merge_maps(
                            old(self)@,
                            part.insert(id, e@),
                        ));
                    }
                },
                None => {
                    self.push_entries(id, e.duplicate());
                    proof {
                        assert(!old(self)@.contains_key(id));
                        assert(entries_of(old(self)@, id).union_prefer_right(e@) =~= e@);
                        assert(self@ =~= merge_maps(
                            old(self)@,
                            part.insert(id, e@),
                        ));
                    }
                },
            }
            i = i + 1;
        }
        proof {
            assert(other.ids@.take(n as int) =~= other.ids@);
            assert(other.maps@.take(n as int) =~= other.maps@);
        }
    }

    /// Adds the entries of `other` (its values win), unless some vector would
    /// then hold more than 64 keys; then nothing changes and that vector is
    /// reported.
    pub fn merge(&mut self, other: MetadataStore) -> (r: Result<(), MetadataError>)
        ensures
            r is Ok <==> (forall|id: u32| #[trigger]
                other@.contains_key(id) ==> merged_key_count(old(self)@, other@, id)
                <= MAX_KEYS_PER_VECTOR),
            r is Ok ==> final(self)@ == merge_maps(old(self)@, other@),
            r matches Err(e) ==> final(self)@ == old(self)@ && (e matches MetadataError::TooManyKeys {
                vector_id,
                count,
                max,
            } && other@.contains_key(vector_id) && merged_key_count(old(self)@, other@, vector_id)
                > MAX_KEYS_PER_VECTOR && count == capped(merged_key_count(old(self)@, other@, vector_id))
                && max == MAX_KEYS_PER_VECTOR),
    {
        proof {
            use_type_invariant(&other);
        }
        let n = other.ids.len();
        let mut i: usize = 0;
        while i < n
            invariant
                i <= n,
                n == other.ids@.len(),
                n == other.maps@.len(),
                other.ids@.no_duplicates(),
                forall|k: int|
                    0 <= k < i ==> merged_key_count(self@, other@, #[trigger] other.ids@[k])
                        <= MAX_KEYS_PER_VECTOR,
            decreases n - i,
        {
            let id = other.ids[i];
            proof {
                lemma_index_of_unique(other.ids@, i as int);
                assert(other.ids@.contains(id));
            }
            let count = match self.find(id) {
                Some(j) => union_key_count(&self.maps[j], &other.maps[i]),
                None => {
                    let c = other.maps[i].len();
                    proof {
                        assert(Map::<Seq<char>, ValueView>::empty().dom().union(
                            other.maps@[i as int]@.dom(),
                        ) =~= other.maps@[i as int]@.dom());
                    }
                    c
                },
            };
            if count > MAX_KEYS_PER_VECTOR {
                return Err(
                    MetadataError::TooManyKeys { vector_id: id, count, max: MAX_KEYS_PER_VECTOR },
                );
            }
            i = i + 1;
        }
        proof {
            assert forall|id: u32| #[trigger] other@.contains_key(id) implies merged_key_count(
                self@,
                other@,
                id,
            ) <= MAX_KEYS_PER_VECTOR by {
                let k = other.ids@.index_of(id);
                assert(other.ids@[k] == id);
            }
        }
        self.merge_unchecked(other);
        Ok(())
    }

    /// The total number of keys over all vectors.
    pub fn total_key_count(&self) -> (n: usize)
        requires
            key_total(self@, self.id_seq()) <= usize::MAX,
        ensures
            n == key_total(self@, self.id_seq()),
    {
        proof {
            use_type_invariant(self);
        }
        let len = self.ids.len();
        let mut total: usize = 0;
        let mut i: usize = 0;
        while i < len
            invariant
                i <= len,
                len == self.ids@.len(),
                len == self.maps@.len(),
                self.ids@.no_duplicates(),
                key_total(self@, self.ids@) <= usize::MAX,
                total == key_total(self@, self.ids@.take(i as int)),
            decreases len - i,
        {
            proof {
                lemma_index_of_unique(self.ids@, i as int);
                assert(self.ids@.contains(self.ids@[i as int]));
                assert(self.ids@.take(i + 1).drop_last() =~= self.ids@.take(i as int));
                lemma_key_total_prefix(self@, self.ids@, i + 1);
            }
            total = total + self.maps[i].len();
            i = i + 1;
        }
        proof {
            assert(self.ids@.take(len as int) =~= self.ids@);
        }
        total
    }
}

/// The number of keys of the vectors `ids` (in `m`).
pub open spec fn key_total(m: StoreMap, ids: Seq<u32>) -> nat
    decreases ids.len(),
{
    if ids.len() == 0 {
        0
    } else {
        key_total(m, ids.drop_last()) + entries_of(m, ids.last()).len()
    }
}

proof fn lemma_key_total_prefix(m: StoreMap, ids: Seq<u32>, i: int)
    requires
        0 <= i <= ids.len(),
    ensures
        key_total(m, ids.take(i)) <= key_total(m, ids),
    decreases ids.len(),
{
    if i < ids.len() {
        assert(ids.drop_last().take(i) =~= ids.take(i));
        lemma_key_total_prefix(m, ids.drop_last(), i);
    } else {
        assert(ids.take(i) =~= ids);
    }
}

impl Clone for MetadataStore {
    fn clone(&self) -> (r: Self)
        ensures
            r@ == self@,
    {
        proof {
            use_type_invariant(self);
        }
        let n = self.ids.len();
        let mut maps: Vec<MetadataEntries> = Vec::new();
        let mut i: usize = 0;
        while i < n
            invariant
                i <= n,
                n == self.maps@.len(),
                maps@.len() == i,
                forall|k: int| 0 <= k < i ==> (#[trigger] maps@[k])@ == self.maps@[k]@,
            decreases n - i,
        {
            maps.push(self.maps[i].duplicate());
            i = i + 1;
        }
        let r = MetadataStore { ids: self.ids.clone(), maps };
        proof {
            assert(r@ =~= self@) by {
                assert forall|id: u32| #[trigger] r@.contains_key(id) implies r@[id] == self@[id] by {
                    let j = self.ids@.index_of(id);
                    assert(self.ids@.contains(id));
                    assert(self.ids@[j] == id);
                }
            }
        }
        r
    }
}

impl Default for MetadataStore {
    fn default() -> (s: Self)
        ensures
            s@ == StoreMap::empty(),
    {
        MetadataStore::new()
    }
}

/// Equality of two sets of entries: the same keys, with equal values.
pub open spec fn entries_eq(a: Map<Seq<char>, ValueView>, b: Map<Seq<char>, ValueView>) -> bool {
    a.dom() == b.dom() && forall|k: Seq<char>| #[trigger] a.contains_key(k) ==> view_eq(a[k], b[k])
}

/// Equality of two stores: the same vectors, with equal entries.
pub open spec fn store_eq(a: StoreMap, b: StoreMap) -> bool {
    a.dom() == b.dom() && forall|id: u32| #[trigger] a.contains_key(id) ==> entries_eq(a[id], b[id])
}

fn entries_equal(a: &MetadataEntries, b: &MetadataEntries) -> (r: bool)
    ensures
        r == entries_eq(a@, b@),
{
    let la = a.len();
    let lb = b.len();
    if la != lb {
        return false;
    }
    let mut i: usize = 0;
    while i < la
        invariant
            i <= la,
            la == a.key_seq().len(),
            la == a@.len(),
            lb == b@.len(),
            la == lb,
            a.key_seq().to_set() == a@.dom(),
            a@.dom().finite(),
            b@.dom().finite(),
            forall|j: int|
                0 <= j < i ==> b@.contains_key(#[trigger] a.key_seq()[j]) && view_eq(
                    a@[a.key_seq()[j]],
                    b@[a.key_seq()[j]],
                ),
        decreases la - i,
    {
        let k = a.key_at(i);
        let v = a.value_at(i);
        match b.get(k.as_str()) {
            None => {
                proof {
                    assert(a@.contains_key(k@));
                }
                return false;
            },
            Some(w) => {
                if !(*v == *w) {
                    return false;
                }
            },
        }
        i = i + 1;
    }
    proof {
        assert forall|k: Seq<char>| #[trigger] a@.contains_key(k) implies b@.contains_key(k)
            && view_eq(a@[k], b@[k]) by {
            assert(a.key_seq().to_set().contains(k));
            let j = a.key_seq().index_of(k);
            assert(a.key_seq()[j] == k);
        }
        vstd::set_lib::lemma_subset_equality(a@.dom(), b@.dom());
    }
    true
}

impl PartialEq for MetadataStore {
    fn eq(&self, other: &Self) -> (r: bool) {
        proof {
            use_type_invariant(self);
        }
        let n = self.vector_count();
        let m = other.vector_count();
        if n != m {
            return false;
        }
        let mut i: usize = 0;
        while i < n
            invariant
                i <= n,
                n == self.ids@.len(),
                n == self.maps@.len(),
                n == self@.len(),
                m == other@.len(),
                n == m,
                self.ids@.no_duplicates(),
                self@.dom().finite(),
                other@.dom().finite(),
                forall|j: int|
                    0 <= j < i ==> other@.contains_key(#[trigger] self.ids@[j]) && entries_eq(
                        self@[self.ids@[j]],
                        other@[self.ids@[j]],
                    ),
            decreases n - i,
        {
            let id = self.ids[i];
            proof {
                lemma_index_of_unique(self.ids@, i as int);
                assert(self.ids@.contains(id));
            }
            match other.get_all(id) {
                None => {
                    return false;
                },
                Some(e) => {
                    if !entries_equal(&self.maps[i], e) {
                        return false;
                    }
                },
            }
            i = i + 1;
        }
        proof {
            assert forall|id: u32| #[trigger] self@.contains_key(id) implies other@.contains_key(id)
                && entries_eq(self@[id], other@[id]) by {
                let j = self.ids@.index_of(id);
                assert(self.ids@[j] == id);
            }
            vstd::set_lib::lemma_subset_equality(self@.dom(), other@.dom());
        }
        true
    }
}

impl PartialEqSpecImpl for MetadataStore {
    open spec fn obeys_eq_spec() -> bool {
        true
    }

    open spec fn eq_spec(&self, other: &Self) -> bool {
        store_eq(self@, other@)
    }
}

/// A count, capped at the largest `usize`.
pub open spec fn capped(n: nat) -> usize {
    if n <= usize::MAX {
        n as usize
    } else {
        usize::MAX
    }
}

/// The number of keys vector `id` would hold after merging `b` into `a`.
pub open spec fn merged_key_count(a: StoreMap, b: StoreMap, id: u32) -> nat {
    entries_of(a, id).dom().union(entries_of(b, id).dom()).len()
}

/// The number of distinct keys of `a` and `b` together (capped).
fn union_key_count(a: &MetadataEntries, b: &MetadataEntries) -> (n: usize)
    ensures
        n == capped(a@.dom().union(b@.dom()).len()),
{
    let la = a.len();
    let lb = b.len();
    let ghost bs = b.key_seq();
    let ghost ad = a@.dom();
    let mut extra: usize = 0;
    let mut j: usize = 0;
    proof {
        broadcast use vstd::seq_lib::seq_to_set_is_finite;
        assert(bs.take(0).to_set().difference(ad) =~= Set::<Seq<char>>::empty());
    }
    while j < lb
        invariant
            j <= lb,
            lb == bs.len(),
            bs == b.key_seq(),
            bs.no_duplicates(),
            ad == a@.dom(),
            ad.finite(),
            extra <= j,
            extra == bs.take(j as int).to_set().difference(ad).len(),
            bs.take(j as int).to_set().difference(ad).finite(),
        decreases lb - j,
    {
        let k = b.key_at(j);
        let present = a.contains_key(k.as_str());
        proof {
            broadcast use vstd::seq_lib::seq_to_set_is_finite;

            let x = bs[j as int];
            let d0 = bs.take(j as int).to_set().difference(ad);
            let d1 = bs.take(j + 1).to_set().difference(ad);
            assert(!bs.take(j as int).contains(x)) by {
                if bs.take(j as int).contains(x) {
                    let w = bs.take(j as int).index_of(x);
                    assert(bs[w] == x);
                }
            }
            assert forall|q: Seq<char>| #[trigger] bs.take(j + 1).contains(q) <==> (bs.take(
                j as int,
            ).contains(q) || q == x) by {
                if bs.take(j + 1).contains(q) {
                    let w = bs.take(j + 1).index_of(q);
                    if w < j {
                        assert(bs.take(j as int)[w] == q);
                    }
                }
                if bs.take(j as int).contains(q) {
                    let w = bs.take(j as int).index_of(q);
                    assert(bs.take(j + 1)[w] == q);
                }
                if q == x {
                    assert(bs.take(j + 1)[j as int] == q);
                }
            }
            if present {
                assert(d1 =~= d0);
            } else {
                assert(d1 =~= d0.insert(x));
                assert(!d0.contains(x));
            }
        }
        if !present {
            extra = extra + 1;
        }
        j = j + 1;
    }
    proof {
        broadcast use vstd::set_lib::group_set_properties;

        assert(bs.take(lb as int) =~= bs);
        let d = bs.to_set().difference(ad);
        assert(d =~= b@.dom().difference(ad));
        assert(ad.union(b@.dom()) =~= ad + d);
        assert(ad.disjoint(d));
    }
    match la.checked_add(extra) {
        Some(t) => t,
        None => usize::MAX,
    }
}

/// The entries of `e` under its first `k` keys (in the order `ks`).
pub open spec fn prefix_map(
    e: Map<Seq<char>, ValueView>,
    ks: Seq<Seq<char>>,
    k: int,
) -> Map<Seq<char>, ValueView> {
    Map::new(|key: Seq<char>| ks.take(k).contains(key), |key: Seq<char>| e[key])
}

/// The store after removing the value of vector `id` under `key`; a vector
/// left without keys leaves the store.
pub open spec fn spec_delete(m: StoreMap, id: u32, key: Seq<char>) -> StoreMap {
    if !m.contains_key(id) {
        m
    } else if m[id].remove(key).len() == 0 {
        m.remove(id)
    } else {
        m.insert(id, m[id].remove(key))
    }
}

/// The entries of `a` and `b` together; where both have a value for the same
/// vector and key, the value of `b` wins.
pub open spec fn merge_maps(a: StoreMap, b: StoreMap) -> StoreMap {
    Map::new(
        |id: u32| a.contains_key(id) || b.contains_key(id),
        |id: u32|
            if b.contains_key(id) {
                entries_of(a, id).union_prefer_right(b[id])
            } else {
                a[id]
            },
    )
}

/// Whether storing under `key` for vector `id` would exceed the key limit.
pub open spec fn too_many_keys(m: StoreMap, id: u32, key: Seq<char>) -> bool {
    !entries_of(m, id).contains_key(key) && entries_of(m, id).len() >= MAX_KEYS_PER_VECTOR
}

/// The store after storing `value` under `key` for vector `id`.
pub open spec fn spec_insert(m: StoreMap, id: u32, key: Seq<char>, value: ValueView) -> StoreMap {
    m.insert(id, entries_of(m, id).insert(key, value))
}

} // verus!

verus! {

/// A value stored under a key is read back from that key, and every other
/// vector and key keeps its value.
pub proof fn lemma_insert_then_get(m: StoreMap, id: u32, key: Seq<char>, value: ValueView)
    ensures
        entries_of(spec_insert(m, id, key, value), id).contains_key(key),
        entries_of(spec_insert(m, id, key, value), id)[key] == value,
        forall|id2: u32, key2: Seq<char>|
            (id2 != id || key2 != key) ==> (#[trigger] entries_of(
                spec_insert(m, id, key, value),
                id2,
            ).contains_key(key2) == entries_of(m, id2).contains_key(key2) && (entries_of(
                m,
                id2,
            ).contains_key(key2) ==> entries_of(spec_insert(m, id, key, value), id2)[key2]
                == entries_of(m, id2)[key2])),
{
}

/// Storing under a key that is already present keeps the number of keys.
pub proof fn lemma_overwrite_keeps_count(m: StoreMap, id: u32, key: Seq<char>, value: ValueView)
    requires
        entries_of(m, id).contains_key(key),
        entries_of(m, id).dom().finite(),
    ensures
        entries_of(spec_insert(m, id, key, value), id).len() == entries_of(m, id).len(),
{
    assert(entries_of(spec_insert(m, id, key, value), id).dom() =~= entries_of(m, id).dom());
}

/// After deleting a key it is absent, and every other vector and key keeps
/// its value.
pub proof fn lemma_delete_then_absent(m: StoreMap, id: u32, key: Seq<char>)
    requires
        m.contains_key(id) ==> m[id].dom().finite(),
    ensures
        !entries_of(spec_delete(m, id, key), id).contains_key(key),
        forall|id2: u32, key2: Seq<char>|
            (id2 != id || key2 != key) ==> (#[trigger] entries_of(
                spec_delete(m, id, key),
                id2,
            ).contains_key(key2) == entries_of(m, id2).contains_key(key2) && (entries_of(
                m,
                id2,
            ).contains_key(key2) ==> entries_of(spec_delete(m, id, key), id2)[key2] == entries_of(
                m,
                id2,
            )[key2])),
{
    if m.contains_key(id) && m[id].remove(key).len() == 0 {
        let d = m[id].remove(key).dom();
        assert(d.finite()) by {
            assert(d =~= m[id].dom().remove(key));
        }
        vstd::set_lib::lemma_set_empty_equivalency_len(d);
        assert forall|key2: Seq<char>| key2 != key implies !#[trigger] m[id].contains_key(key2) by {
            if m[id].contains_key(key2) {
                assert(d.contains(key2));
            }
        }
    }
}

/// Merging gives each vector the keys of both stores; where both have a
/// value under a key, the merged store holds the value of the second.
pub proof fn lemma_merge_values(a: StoreMap, b: StoreMap, id: u32, key: Seq<char>)
    ensures
        entries_of(merge_maps(a, b), id).contains_key(key) == (entries_of(a, id).contains_key(key)
            || entries_of(b, id).contains_key(key)),
        entries_of(b, id).contains_key(key) ==> entries_of(merge_maps(a, b), id)[key]
            == entries_of(b, id)[key],
        entries_of(a, id).contains_key(key) && !entries_of(b, id).contains_key(key) ==> entries_of(
            merge_maps(a, b),
            id,
        )[key] == entries_of(a, id)[key],
{
}


/// Deleting undoes inserting: storing a value under a key that vector `id`
/// did not have, then deleting that key, gives back the store, provided every
/// vector in it holds at least one key (as in every store built by these
/// operations).
pub proof fn lemma_insert_then_delete(m: StoreMap, id: u32, key: Seq<char>, value: ValueView)
    requires
        !entries_of(m, id).contains_key(key),
        m.contains_key(id) ==> m[id].dom().finite() && m[id].len() > 0,
    ensures
        spec_delete(spec_insert(m, id, key, value), id, key) == m,
{
    let n = spec_insert(m, id, key, value);
    if m.contains_key(id) {
        assert(n[id].remove(key) =~= m[id]);
        assert(n.insert(id, m[id]) =~= m);
    } else {
        assert(n[id].remove(key) =~= Map::<Seq<char>, ValueView>::empty());
        assert(n.remove(id) =~= m);
    }
}

} // verus!
