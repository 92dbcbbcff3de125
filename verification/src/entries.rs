//! Taking a hash map apart into its entries.

use std::collections::HashMap;
use vstd::prelude::*;
use crate::keyed::{cells_of, distinct_cells, filed, has_cell, lists_cells, table};
use crate::keys::{clones_faithfully, hashes_soundly};

verus! {

/// `entries` holds each pair of `map` once, in some order.
pub open spec fn lists_entries<K, V>(entries: Seq<(K, V)>, map: Map<K, V>) -> bool {
    &&& forall|i: int| 0 <= i < entries.len() ==> map.contains_pair((#[trigger] entries[i]).0, entries[i].1)
    &&& forall|i: int, j: int|
        0 <= i < j < entries.len() ==> (#[trigger] entries[i]).0 != (#[trigger] entries[j]).0
    &&& forall|k: K| #[trigger]
        map.contains_key(k) ==> exists|i: int| 0 <= i < entries.len() && (#[trigger] entries[i]).0 == k
}

/// Moves the entries of `map` into a vector, through `Vec::from_iter`, which
/// walks the map with `HashMap::into_iter`. Trusted, for keys that hash
/// soundly: each pair of the map comes out exactly once. The order is the
/// map's own and nothing is said of it.
#[verifier::external_body]
pub(crate) fn into_entries<K, V>(map: HashMap<K, V>) -> (entries: Vec<(K, V)>)
    ensures
        hashes_soundly::<K>() ==> lists_entries(entries@, map@),
{
    Vec::from_iter(map)
}

/// As many entries as a map has keys list it.
pub proof fn lemma_entries_len<K, V>(entries: Seq<(K, V)>, map: Map<K, V>)
    requires
        lists_entries(entries, map),
        map.dom().finite(),
    ensures
        entries.len() == map.len(),
{
    let keys = entries.map_values(|e: (K, V)| e.0);
    assert forall|k: K| keys.to_set().contains(k) == map.dom().contains(k) by {
        if map.dom().contains(k) {
            let i = choose|i: int| 0 <= i < entries.len() && (#[trigger] entries[i]).0 == k;
            assert(keys[i] == k);
        }
    }
    assert(keys.to_set() =~= map.dom());
    keys.unique_seq_to_set();
}

/// A cell that is filed among some triples is filed among any sequence
/// that begins with them.
proof fn lemma_filed_grows<K, L, V>(triples: Seq<(K, L, V)>, more: Seq<(K, L, V)>, k: K, l: L)
    requires
        filed(triples, triples.len() as int, k, l),
        triples.len() <= more.len(),
        forall|i: int| 0 <= i < triples.len() ==> more[i] == triples[i],
    ensures
        filed(more, more.len() as int, k, l),
{
}

/// Moves the cells of a map of maps into a vector of triples: outer key,
/// inner key, value. The outer key is cloned for each cell of its row.
pub(crate) fn into_triples<K: Clone, L, V>(map: HashMap<K, HashMap<L, V>>) -> (triples: Vec<(K, L, V)>)
    ensures
        hashes_soundly::<K>() && hashes_soundly::<L>() && clones_faithfully::<K>() ==> lists_cells(
            triples@,
            table(map),
        ),
{
    let ghost sound = hashes_soundly::<K>() && hashes_soundly::<L>() && clones_faithfully::<K>();
    let ghost t = table(map);
    let rows = into_entries(map);
    let mut triples: Vec<(K, L, V)> = Vec::new();
    for entry in it: rows
        invariant
            sound == (hashes_soundly::<K>() && hashes_soundly::<L>() && clones_faithfully::<K>()),
            t == table(map),
            it.seq() == rows@,
            sound ==> lists_entries(rows@, map@),
            sound ==> distinct_cells(triples@),
            sound ==> cells_of(triples@, t),
            sound ==> forall|i: int, e: int|
                0 <= i < triples.len() && it.index() <= e < rows.len() ==> (#[trigger] triples[i]).0
                    != (#[trigger] rows[e]).0,
            sound ==> forall|e: int, l: L|
                0 <= e < it.index() && #[trigger] has_cell(t, rows[e].0, l) ==> filed(
                    triples@,
                    triples.len() as int,
                    rows[e].0,
                    l,
                ),
    {
        let ghost n = it.index();
        let (k, row) = entry;
        let cells = into_entries(row);
        for cell in at: cells
            invariant
                sound == (hashes_soundly::<K>() && hashes_soundly::<L>() && clones_faithfully::<K>()),
                0 <= n < rows.len(),
                k == rows[n].0,
                at.seq() == cells@,
                sound ==> t.contains_key(k) && t[k] == row@,
                sound ==> lists_entries(rows@, map@),
                sound ==> lists_entries(cells@, row@),
                sound ==> distinct_cells(triples@),
                sound ==> cells_of(triples@, t),
                sound ==> forall|i: int, e: int|
                    0 <= i < triples.len() && n < e < rows.len() ==> (#[trigger] triples[i]).0
                        != (#[trigger] rows[e]).0,
                sound ==> forall|i: int, c: int|
                    0 <= i < triples.len() && at.index() <= c < cells.len() && (
                    #[trigger] triples[i]).0 == k ==> triples[i].1 != (#[trigger] cells[c]).0,
                sound ==> forall|e: int, l: L|
                    0 <= e < n && #[trigger] has_cell(t, rows[e].0, l) ==> filed(
                        triples@,
                        triples.len() as int,
                        rows[e].0,
                        l,
                    ),
                sound ==> forall|c: int|
                    0 <= c < at.index() ==> filed(
                        triples@,
                        triples.len() as int,
                        k,
                        (#[trigger] cells[c]).0,
                    ),
        {
            let ghost c = at.index();
            let ghost before = triples@;
            let (l, v) = cell;
            let outer = k.clone();
            assert(cloned(k, outer));
            triples.push((outer, l, v));
            proof {
                if sound {
                    assert(triples[before.len() as int].0 == k && triples[before.len() as int].1 == l);
                    assert forall|e: int, m: L|
                        0 <= e < n && #[trigger] has_cell(t, rows[e].0, m) implies filed(
                        triples@,
                        triples.len() as int,
                        rows[e].0,
                        m,
                    ) by {
                        lemma_filed_grows(before, triples@, rows[e].0, m);
                    }
                    assert forall|d: int| 0 <= d < c + 1 implies filed(
                        triples@,
                        triples.len() as int,
                        k,
                        (#[trigger] cells[d]).0,
                    ) by {
                        if d < c {
                            lemma_filed_grows(before, triples@, k, cells[d].0);
                        }
                    }
                }
            }
        }
    }
    triples
}

} // verus!
