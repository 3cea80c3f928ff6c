//! Reading back the flat form of a metadata store: inserting the entries that
//! `to_entries` lists, in order, rebuilds the store.

use super::serialize::{entry_keys, fold_entries, store_pairs, MetadataEntry};
use super::store::{entries_of, spec_insert, StoreMap};
use super::validation::{valid_key, valid_value};
use vstd::prelude::*;

verus! {

/// The part of store `m` made of the given `(vector ID, key)` pairs.
pub open spec fn restrict_pairs(m: StoreMap, pairs: Set<(u32, Seq<char>)>) -> StoreMap {
    Map::new(
        |id: u32| exists|key: Seq<char>| #[trigger] pairs.contains((id, key)),
        |id: u32| Map::new(|key: Seq<char>| pairs.contains((id, key)), |key: Seq<char>| m[id][key]),
    )
}

/// What `to_entries` promises of its entries for store `m`, and the validity
/// of each entry's key and value.
pub open spec fn entries_describe(m: StoreMap, es: Seq<MetadataEntry>) -> bool {
    &&& entry_keys(es).no_duplicates()
    &&& entry_keys(es).to_set() == store_pairs(m)
    &&& forall|j: int|
        0 <= j < es.len() ==> #[trigger] entries_of(m, es[j].0).contains_key(es[j].1@) && es[j].2@
            == m[es[j].0][es[j].1@]
    &&& forall|j: int| 0 <= j < es.len() ==> valid_key((#[trigger] es[j]).1@) && valid_value(es[j].2)
}

/// A store whose every vector holds a finite, non-empty set of keys (as every
/// store value does).
pub open spec fn store_well_shaped(m: StoreMap) -> bool {
    forall|id: u32| #[trigger] m.contains_key(id) ==> m[id].dom().finite() && 0 < m[id].len()
}

proof fn lemma_fold_prefix(m: StoreMap, es: Seq<MetadataEntry>, k: int)
    requires
        entries_describe(m, es),
        store_well_shaped(m),
        0 <= k <= es.len(),
    ensures
        fold_entries(es.take(k)) == restrict_pairs(m, entry_keys(es.take(k)).to_set()),
    decreases k,
{
    if k == 0 {
        assert(entry_keys(es.take(0)).to_set() =~= Set::<(u32, Seq<char>)>::empty());
        assert(fold_entries(es.take(0)) =~= restrict_pairs(m, Set::empty()));
    } else {
        let prev = es.take(k - 1);
        lemma_fold_prefix(m, es, k - 1);
        assert(es.take(k).drop_last() =~= prev);
        let e = es[k - 1];
        let id = e.0;
        let key = e.1@;
        let sp = entry_keys(prev).to_set();
        let sk = entry_keys(es.take(k)).to_set();
        assert(entry_keys(es.take(k)) =~= entry_keys(prev).push((id, key)));
        entry_keys(prev).lemma_push_to_set_commute((id, key));
        assert(sk =~= sp.insert((id, key)));
        assert(entry_keys(prev) =~= entry_keys(es).take(k - 1));
        assert(!sp.contains((id, key))) by {
            if sp.contains((id, key)) {
                let w = entry_keys(prev).index_of((id, key));
                assert(entry_keys(es)[w] == entry_keys(es)[k - 1]);
            }
        }
        let rp = restrict_pairs(m, sp);
        assert(entries_of(m, id).contains_key(key));
        assert(m.contains_key(id));
        assert(valid_key(key) && valid_value(e.2));
        assert(e.2@ == m[id][key]);
        let ins = spec_insert(rp, id, key, e.2@);
        let rk = restrict_pairs(m, sk);
        assert(rk.dom() =~= ins.dom()) by {
            assert forall|i: u32| rk.dom().contains(i) <==> ins.dom().contains(i) by {
                if rk.dom().contains(i) && i != id {
                    let q = choose|q: Seq<char>| sk.contains((i, q));
                    assert(sp.contains((i, q)));
                }
                if ins.dom().contains(i) && i != id {
                    assert(rp.dom().contains(i));
                    let q = choose|q: Seq<char>| sp.contains((i, q));
                    assert(sk.contains((i, q)));
                }
                if i == id {
                    assert(sk.contains((id, key)));
                }
            }
        }
        assert forall|i: u32| #[trigger] rk.contains_key(i) implies rk[i] == ins[i] by {
            if i == id {
                assert(rk[i] =~= entries_of(rp, id).insert(key, e.2@));
            } else {
                assert(rk[i] =~= rp[i]);
            }
        }
        assert(rk =~= ins);
    }
}

/// Writing a store as entries and reading them back gives the same store: when
/// the entries list each `(vector ID, key)` pair of the store once with its
/// value (as `to_entries` returns them) and their keys and values are valid,
/// storing them in order (as `from_entries` does) rebuilds exactly that store,
/// however many keys a vector holds.
pub proof fn lemma_entries_roundtrip(m: StoreMap, es: Seq<MetadataEntry>)
    requires
        entries_describe(m, es),
        store_well_shaped(m),
    ensures
        fold_entries(es) == m,
{
    lemma_fold_prefix(m, es, es.len() as int);
    assert(es.take(es.len() as int) =~= es);
    let r = restrict_pairs(m, store_pairs(m));
    assert(r.dom() =~= m.dom()) by {
        assert forall|i: u32| m.dom().contains(i) implies r.dom().contains(i) by {
            vstd::set::axiom_set_choose_len(m[i].dom());
            let q = m[i].dom().choose();
            assert(store_pairs(m).contains((i, q)));
        }
    }
    assert forall|i: u32| #[trigger] r.contains_key(i) implies r[i] == m[i] by {
        assert(r[i] =~= m[i]);
    }
    assert(r =~= m);
}


} // verus!
