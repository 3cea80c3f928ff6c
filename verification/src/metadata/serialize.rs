//! The flat form of a metadata store, and checksums over its encoding.
//!
//! A store is written as a list of `(vector ID, key, value)` entries and read
//! back by storing the entries one by one (entries with an invalid key or
//! value are skipped; a vector may hold any number of keys).

use super::entries::MetadataEntries;
use super::store::{entries_of, spec_insert, MetadataStore, StoreMap};
use super::types::{string_views, MetadataValue, ValueView};
use super::validation::{first_long_string, valid_key, valid_value};
use crate::checksum::{crc32_hash, crc32_of};
use crate::hex::{alt_lower_hex, push_alt_lower_hex};
use vstd::prelude::*;
use vstd::string::*;

verus! {

/// Errors of encoding and decoding metadata.
#[derive(Debug, PartialEq)]
pub enum SerializationError {
    /// Postcard encoding failed.
    PostcardEncode(String),
    /// Postcard decoding failed.
    PostcardDecode(String),
    /// JSON encoding failed.
    JsonEncode(String),
    /// JSON decoding failed.
    JsonDecode(String),
    /// The checksum of the data differs from the expected one.
    CrcMismatch {
        /// The expected checksum.
        expected: u32,
        /// The checksum of the data.
        actual: u32,
    },
}

/// One entry of the flat form.
pub type MetadataEntry = (u32, String, MetadataValue);

/// The vector ID and key characters of each entry.
pub open spec fn entry_keys(es: Seq<MetadataEntry>) -> Seq<(u32, Seq<char>)> {
    es.map_values(|e: MetadataEntry| (e.0, e.1@))
}

/// The `(vector ID, key)` pairs a store holds.
pub open spec fn store_pairs(m: StoreMap) -> Set<(u32, Seq<char>)> {
    Set::new(|p: (u32, Seq<char>)| m.contains_key(p.0) && m[p.0].contains_key(p.1))
}

/// The store after storing one entry, or unchanged where its key or value is
/// invalid.
pub open spec fn insert_or_skip(m: StoreMap, e: MetadataEntry) -> StoreMap {
    if valid_key(e.1@) && valid_value(e.2) {
        spec_insert(m, e.0, e.1@, e.2@)
    } else {
        m
    }
}

/// The store built by storing the entries in order, skipping invalid ones.
pub open spec fn fold_entries(es: Seq<MetadataEntry>) -> StoreMap
    decreases es.len(),
{
    if es.len() == 0 {
        StoreMap::empty()
    } else {
        insert_or_skip(fold_entries(es.drop_last()), es.last())
    }
}

/// The message of a serialization error.
pub open spec fn serialization_error_text(e: SerializationError) -> Seq<char> {
    match e {
        SerializationError::PostcardEncode(m) => "postcard encode failed: "@ + m@,
        SerializationError::PostcardDecode(m) => "postcard decode failed: "@ + m@,
        SerializationError::JsonEncode(m) => "json encode failed: "@ + m@,
        SerializationError::JsonDecode(m) => "json decode failed: "@ + m@,
        SerializationError::CrcMismatch { expected, actual } => "CRC mismatch: expected "@
            + alt_lower_hex(expected as nat) + ", got "@ + alt_lower_hex(actual as nat),
    }
}

impl SerializationError {
    /// The error's message.
    pub fn message(&self) -> (s: String)
        ensures
            s@ == serialization_error_text(*self),
    {
        let mut s = String::new();
        match self {
            SerializationError::PostcardEncode(m) => {
                s.append("postcard encode failed: ");
                s.append(m.as_str());
            },
            SerializationError::PostcardDecode(m) => {
                s.append("postcard decode failed: ");
                s.append(m.as_str());
            },
            SerializationError::JsonEncode(m) => {
                s.append("json encode failed: ");
                s.append(m.as_str());
            },
            SerializationError::JsonDecode(m) => {
                s.append("json decode failed: ");
                s.append(m.as_str());
            },
            SerializationError::CrcMismatch { expected, actual } => {
                s.append("CRC mismatch: expected ");
                push_alt_lower_hex(&mut s, *expected as u64);
                s.append(", got ");
                push_alt_lower_hex(&mut s, *actual as u64);
            },
        }
        proof {
            assert(s@ =~= serialization_error_text(*self));
        }
        s
    }
}

impl MetadataStore {
    /// The entries of the store, each `(vector ID, key)` pair once.
    pub fn to_entries(&self) -> (r: Vec<MetadataEntry>)
        ensures
            entry_keys(r@).no_duplicates(),
            entry_keys(r@).to_set() == store_pairs(self@),
            forall|j: int|
                0 <= j < r@.len() ==> #[trigger] entries_of(self@, r@[j].0).contains_key(r@[j].1@)
                    && r@[j].2@ == self@[r@[j].0][r@[j].1@],
    {
        let ids = self.vector_ids();
        let n = ids.len();
        let mut r: Vec<MetadataEntry> = Vec::new();
        let mut i: usize = 0;
        while i < n
            invariant
                i <= n,
                n == ids@.len(),
                ids@.no_duplicates(),
                ids@.to_set() == self@.dom(),
                entry_keys(r@).no_duplicates(),
                entry_keys(r@).to_set() == Set::new(
                    |p: (u32, Seq<char>)|
                        ids@.take(i as int).contains(p.0) && self@[p.0].contains_key(p.1),
                ),
                forall|j: int|
                    0 <= j < r@.len() ==> #[trigger] entries_of(self@, r@[j].0).contains_key(
                        r@[j].1@,
                    ) && r@[j].2@ == self@[r@[j].0][r@[j].1@],
            decreases n - i,
        {
            let id = ids[i];
            proof {
                assert(ids@.to_set().contains(id));
            }
            let e: &MetadataEntries = match self.get_all(id) {
                Some(e) => e,
                None => {
                    proof {
                        assert(false);
                    }
                    return r;
                },
            };
            let m = e.len();
            let ghost before = entry_keys(r@);
            let mut k: usize = 0;
            while k < m
                invariant
                    k <= m,
                    i < n,
                    n == ids@.len(),
                    id == ids@[i as int],
                    ids@.no_duplicates(),
                    ids@.to_set() == self@.dom(),
                    self@.contains_key(id),
                    e@ == self@[id],
                    m == e.key_seq().len(),
                    e.key_seq().no_duplicates(),
                    e.key_seq().to_set() == e@.dom(),
                    before.no_duplicates(),
                    before.to_set() == Set::new(
                        |p: (u32, Seq<char>)|
                            ids@.take(i as int).contains(p.0) && self@[p.0].contains_key(p.1),
                    ),
                    entry_keys(r@) == before + e.key_seq().take(k as int).map_values(
                        |q: Seq<char>| (id, q),
                    ),
                    forall|j: int|
                        0 <= j < r@.len() ==> #[trigger] entries_of(self@, r@[j].0).contains_key(
                            r@[j].1@,
                        ) && r@[j].2@ == self@[r@[j].0][r@[j].1@],
                decreases m - k,
            {
                let key = e.key_at(k).clone();
                let value = e.value_at(k).clone();
                let ghost q = key@;
                let ghost r0 = r@;
                r.push((id, key, value));
                proof {
                    assert(q == e.key_seq()[k as int]);
                    assert(entry_keys(r@) =~= entry_keys(r0).push((id, q)));
                    assert(e.key_seq().take(k + 1) =~= e.key_seq().take(k as int).push(q));
                    assert(e.key_seq().take(k + 1).map_values(|q: Seq<char>| (id, q)) =~= e.key_seq().take(
                        k as int,
                    ).map_values(|q: Seq<char>| (id, q)).push((id, q)));
                    assert(entry_keys(r@) =~= before + e.key_seq().take(k + 1).map_values(
                        |q: Seq<char>| (id, q),
                    ));
                }
                k = k + 1;
            }
            proof {
                let added = e.key_seq().map_values(|q: Seq<char>| (id, q));
                assert(e.key_seq().take(m as int) =~= e.key_seq());
                lemma_entries_extend(before, added, ids@, i as int, self@, e.key_seq());
            }
            i = i + 1;
        }
        proof {
            assert(ids@.take(n as int) =~= ids@);
            assert(entry_keys(r@).to_set() =~= store_pairs(self@)) by {
                assert forall|p: (u32, Seq<char>)| #[trigger] store_pairs(self@).contains(p) implies ids@.contains(p.0) by {
                    assert(ids@.to_set().contains(p.0));
                }
            }
        }
        r
    }

    /// Builds a store by storing the entries in order; entries with an invalid
    /// key or value are skipped. The number of keys per vector is not limited
    /// here, so a store written by `to_entries` is read back whole.
    pub fn from_entries(entries: Vec<MetadataEntry>) -> (s: MetadataStore)
        ensures
            s@ == fold_entries(entries@),
    {
        let mut store = MetadataStore::new();
        let n = entries.len();
        let mut i: usize = 0;
        proof {
            assert(entries@.take(0) =~= Seq::<MetadataEntry>::empty());
        }
        while i < n
            invariant
                i <= n,
                n == entries@.len(),
                store@ == fold_entries(entries@.take(i as int)),
            decreases n - i,
        {
            let e = &entries[i];
            let value = e.2.clone();
            proof {
                lemma_valid_value_view(e.2, value);
                assert(entries@.take(i + 1).drop_last() =~= entries@.take(i as int));
            }
            let _ = store.insert_unlimited(e.0, e.1.as_str(), value);
            i = i + 1;
        }
        proof {
            assert(entries@.take(n as int) =~= entries@);
        }
        store
    }

    /// The CRC32 of `bytes`.
    pub fn calculate_crc(bytes: &[u8]) -> (c: u32)
        ensures
            c == crc32_of(bytes@),
    {
        crc32_hash(bytes)
    }

    /// Checks that the CRC32 of `bytes` is `expected`.
    pub fn verify_crc(bytes: &[u8], expected: u32) -> (r: Result<(), SerializationError>)
        ensures
            crc32_of(bytes@) == expected ==> r is Ok,
            crc32_of(bytes@) != expected ==> r == Err::<(), SerializationError>(
                SerializationError::CrcMismatch { expected, actual: crc32_of(bytes@) },
            ),
    {
        let actual = Self::calculate_crc(bytes);
        if actual != expected {
            return Err(SerializationError::CrcMismatch { expected, actual });
        }
        Ok(())
    }
}

/// Values with the same content are valid alike.
pub proof fn lemma_valid_value_view(v: MetadataValue, w: MetadataValue)
    requires
        v@ == w@,
    ensures
        valid_value(v) == valid_value(w),
{
    match (v, w) {
        (MetadataValue::StringArray(a), MetadataValue::StringArray(b)) => {
            assert(string_views(a@) == string_views(b@));
            assert(a@.len() == string_views(a@).len());
            assert(b@.len() == string_views(b@).len());
            assert forall|k: int| 0 <= k < a@.len() implies #[trigger] a@[k]@ == b@[k]@ by {
                assert(string_views(a@)[k] == string_views(b@)[k]);
            }
            lemma_first_long_string_eq(a@, b@, 0);
        },
        _ => {},
    }
}

proof fn lemma_first_long_string_eq(a: Seq<String>, b: Seq<String>, start: int)
    requires
        0 <= start,
        a.len() == b.len(),
        forall|k: int| 0 <= k < a.len() ==> #[trigger] a[k]@ == b[k]@,
    ensures
        first_long_string(a, start) == first_long_string(b, start),
    decreases a.len() - start,
{
    if start < a.len() {
        assert(a[start]@ == b[start]@);
        lemma_first_long_string_eq(a, b, start + 1);
    }
}

proof fn lemma_entries_extend(
    before: Seq<(u32, Seq<char>)>,
    added: Seq<(u32, Seq<char>)>,
    ids: Seq<u32>,
    i: int,
    m: StoreMap,
    ks: Seq<Seq<char>>,
)
    requires
        0 <= i < ids.len(),
        ids.no_duplicates(),
        m.contains_key(ids[i]),
        ks.no_duplicates(),
        ks.to_set() == m[ids[i]].dom(),
        added == ks.map_values(|q: Seq<char>| (ids[i], q)),
        before.no_duplicates(),
        before.to_set() == Set::new(
            |p: (u32, Seq<char>)| ids.take(i).contains(p.0) && m[p.0].contains_key(p.1),
        ),
    ensures
        (before + added).no_duplicates(),
        (before + added).to_set() == Set::new(
            |p: (u32, Seq<char>)| ids.take(i + 1).contains(p.0) && m[p.0].contains_key(p.1),
        ),
{
    let id = ids[i];
    let all = before + added;
    assert(!ids.take(i).contains(id)) by {
        if ids.take(i).contains(id) {
            let w = ids.take(i).index_of(id);
            assert(ids[w] == id);
        }
    }
    assert forall|a: int, b: int| 0 <= a < all.len() && 0 <= b < all.len() && a != b implies all[a]
        != all[b] by {
        if a < before.len() && b < before.len() {
        } else if a >= before.len() && b >= before.len() {
            assert(all[a] == (id, ks[a - before.len()]));
            assert(all[b] == (id, ks[b - before.len()]));
        } else if a < before.len() {
            assert(before.to_set().contains(before[a]));
            assert(all[b].0 == id);
        } else {
            assert(before.to_set().contains(before[b]));
            assert(all[a].0 == id);
        }
    }
    assert forall|p: (u32, Seq<char>)| #[trigger] all.to_set().contains(p) <==> (ids.take(
        i + 1,
    ).contains(p.0) && m[p.0].contains_key(p.1)) by {
        assert forall|x: u32| #[trigger] ids.take(i + 1).contains(x) <==> (ids.take(i).contains(x)
            || x == id) by {
            if ids.take(i + 1).contains(x) {
                let w = ids.take(i + 1).index_of(x);
                if w < i {
                    assert(ids.take(i)[w] == x);
                }
            }
            if ids.take(i).contains(x) {
                let w = ids.take(i).index_of(x);
                assert(ids.take(i + 1)[w] == x);
            }
            if x == id {
                assert(ids.take(i + 1)[i] == x);
            }
        }
        if all.contains(p) {
            let w = all.index_of(p);
            if w < before.len() {
                assert(before[w] == p);
                assert(before.to_set().contains(p));
            } else {
                assert(p == (id, ks[w - before.len()]));
                assert(ks.to_set().contains(ks[w - before.len()]));
            }
        }
        if ids.take(i).contains(p.0) && m[p.0].contains_key(p.1) {
            assert(before.to_set().contains(p));
            let w = before.index_of(p);
            assert(all[w] == p);
        }
        if p.0 == id && m[p.0].contains_key(p.1) {
            assert(ks.to_set().contains(p.1));
            let w = ks.index_of(p.1);
            assert(all[before.len() + w] == p);
        }
    }
    assert(all.to_set() =~= Set::new(
        |p: (u32, Seq<char>)| ids.take(i + 1).contains(p.0) && m[p.0].contains_key(p.1),
    ));
}


} // verus!
