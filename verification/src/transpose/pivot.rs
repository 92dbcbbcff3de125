//! Pivoting a map of maps.

use std::collections::HashMap;
use std::hash::Hash;
use vstd::prelude::*;
use crate::entries::into_triples;
use crate::keyed::{distinct_cells, filed, has_cell, pivoted, table};
use crate::keys::{clones_faithfully, hashes_soundly};
use crate::transpose::Transpose;

verus! {

broadcast use vstd::std_specs::hash::group_hash_axioms;

/// `t` holds the first `n` of `triples`, each under its inner key and then
/// its outer key, and nothing else.
spec fn groups<K, L, V>(t: Map<L, Map<K, V>>, triples: Seq<(K, L, V)>, n: int) -> bool {
    &&& forall|l: L, k: K| #[trigger] has_cell(t, l, k) <==> filed(triples, n, k, l)
    &&& forall|i: int| 0 <= i < n ==> t[(#[trigger] triples[i]).1][triples[i].0] == triples[i].2
    &&& forall|l: L| #[trigger] t.contains_key(l) ==> exists|k: K| has_cell(t, l, k)
}

/// The row of `t` under `l`, empty where `t` has none.
spec fn row_or_empty<K, L, V>(t: Map<L, Map<K, V>>, l: L) -> Map<K, V> {
    if t.contains_key(l) {
        t[l]
    } else {
        Map::empty()
    }
}

proof fn lemma_group_one_more<K, L, V>(
    before: Map<L, Map<K, V>>,
    after: Map<L, Map<K, V>>,
    triples: Seq<(K, L, V)>,
    n: int,
)
    requires
        0 <= n < triples.len(),
        distinct_cells(triples),
        groups(before, triples, n),
        after == before.insert(
            triples[n].1,
            row_or_empty(before, triples[n].1).insert(triples[n].0, triples[n].2),
        ),
    ensures
        groups(after, triples, n + 1),
{
    let k0 = triples[n].0;
    let l0 = triples[n].1;
    assert(has_cell(after, l0, k0));
    assert forall|l: L, k: K| #[trigger] has_cell(after, l, k) <==> filed(triples, n + 1, k, l) by {
        if has_cell(after, l, k) && !(l == l0 && k == k0) {
            assert(has_cell(before, l, k));
        }
        if filed(triples, n + 1, k, l) {
            let i = choose|i: int| 0 <= i < n + 1 && (#[trigger] triples[i]).0 == k && triples[i].1 == l;
            if i < n {
                assert(has_cell(before, l, k));
            }
        }
    }
    assert forall|i: int| 0 <= i < n + 1 implies after[(#[trigger] triples[i]).1][triples[i].0]
        == triples[i].2 by {
        if i < n {
            assert(has_cell(before, triples[i].1, triples[i].0));
        }
    }
    assert forall|l: L| #[trigger] after.contains_key(l) implies exists|k: K| has_cell(after, l, k) by {
        if l != l0 {
            let k = choose|k: K| has_cell(before, l, k);
            assert(has_cell(after, l, k));
        }
    }
}

/// Files each triple (outer key, inner key, value) under its inner key.
fn group_by_inner<K: Eq + Hash, L: Eq + Hash, V>(triples: Vec<(K, L, V)>) -> (out: HashMap<
    L,
    HashMap<K, V>,
>)
    ensures
        hashes_soundly::<K>() && hashes_soundly::<L>() && distinct_cells(triples@) ==> groups(
            table(out),
            triples@,
            triples.len() as int,
        ),
{
    let ghost sound = hashes_soundly::<K>() && hashes_soundly::<L>() && distinct_cells(triples@);
    let mut out: HashMap<L, HashMap<K, V>> = HashMap::new();
    for triple in it: triples
        invariant
            sound == (hashes_soundly::<K>() && hashes_soundly::<L>() && distinct_cells(triples@)),
            it.seq() == triples@,
            sound ==> groups(table(out), triples@, it.index()),
    {
        let ghost before = table(out);
        let (k, l, v) = triple;
        let row = out.entry(l).or_insert(HashMap::new());
        row.insert(k, v);
        proof {
            if sound {
                assert(table(out) =~~= before.insert(l, row_or_empty(before, l).insert(k, v)));
                lemma_group_one_more(before, table(out), triples@, it.index());
            }
        }
    }
    out
}

impl<K, L, V> Transpose for HashMap<K, HashMap<L, V>> where K: Eq + Hash + Clone, L: Eq + Hash {
    type Output = HashMap<L, HashMap<K, V>>;

    open spec fn keys_behave() -> bool {
        hashes_soundly::<K>() && hashes_soundly::<L>() && clones_faithfully::<K>()
    }

    /// The result, as a table, is the pivot of `self` as a table.
    open spec fn transposes_to(&self, out: &Self::Output) -> bool {
        table(*out) == pivoted(table(*self))
    }

    fn transpose(self) -> (out: Self::Output)
        ensures
            Self::keys_behave() ==> table(out) == pivoted(table(self)),
    {
        let triples = into_triples(self);
        let out = group_by_inner(triples);
        proof {
            let t = table(self);
            if Self::keys_behave() {
                assert forall|l: L| #[trigger] table(out).contains_key(l) == pivoted(t).contains_key(l) by {
                    if pivoted(t).contains_key(l) {
                        let k = choose|k: K| has_cell(t, k, l);
                        assert(has_cell(table(out), l, k));
                    }
                }
                assert forall|l: L| #[trigger] table(out).contains_key(l) implies table(out)[l]
                    =~= pivoted(t)[l] by {
                    assert forall|k: K| table(out)[l].contains_key(k) == pivoted(t)[l].contains_key(k) by {
                        assert(has_cell(table(out), l, k) == has_cell(t, k, l));
                    }
                }
                assert(table(out) =~= pivoted(t));
            }
        }
        out
    }
}

} // verus!
