//! Flattening maps of maps, maps of sequences and sequences of maps.

use std::collections::HashMap;
use std::hash::Hash;
use vstd::prelude::*;
use crate::entries::{into_entries, into_triples, lists_entries};
use crate::flatten::Flatten;
use crate::keyed::{cells_of, has_cell, keyed_seqs, records, table};
use crate::keys::{clones_faithfully, hashes_soundly};

verus! {

broadcast use vstd::std_specs::hash::group_hash_axioms;

/// The cells of the table `t`, each under its pair of keys.
pub open spec fn cells_by_pair<K, L, V>(t: Map<K, Map<L, V>>) -> Map<(K, L), V> {
    Map::new(|p: (K, L)| has_cell(t, p.0, p.1), |p: (K, L)| t[p.0][p.1])
}

/// The elements of the keyed sequences `m`, each under its key and its
/// position.
pub open spec fn elements_by_position<K, V>(m: Map<K, Seq<V>>) -> Map<(K, usize), V> {
    Map::new(
        |p: (K, usize)| m.contains_key(p.0) && p.1 < m[p.0].len(),
        |p: (K, usize)| m[p.0][p.1 as int],
    )
}

/// The values of the records `s`, each under the position of its record
/// and its key.
pub open spec fn values_by_record<K, V>(s: Seq<Map<K, V>>) -> Map<(usize, K), V> {
    Map::new(
        |p: (usize, K)| p.0 < s.len() && s[p.0 as int].contains_key(p.1),
        |p: (usize, K)| s[p.0 as int][p.1],
    )
}

impl<K, L, V> Flatten for HashMap<K, HashMap<L, V>> where K: Eq + Hash + Clone, L: Eq + Hash {
    type Output = HashMap<(K, L), V>;

    open spec fn keys_behave() -> bool {
        &&& hashes_soundly::<K>()
        &&& hashes_soundly::<L>()
        &&& hashes_soundly::<(K, L)>()
        &&& clones_faithfully::<K>()
    }

    /// One entry for each cell, keyed by the cell's outer and inner key.
    open spec fn flattens_to(&self, out: &Self::Output) -> bool {
        out@ == cells_by_pair(table(*self))
    }

    fn flatten(self) -> (out: Self::Output)
        ensures
            Self::keys_behave() ==> out@ == cells_by_pair(table(self)),
    {
        let ghost sound = Self::keys_behave();
        let ghost t = table(self);
        let triples = into_triples(self);
        let mut out: HashMap<(K, L), V> = HashMap::new();
        for triple in it: triples
            invariant
                sound == Self::keys_behave(),
                it.seq() == triples@,
                sound ==> cells_of(triples@, t),
                sound ==> forall|p: (K, L)| #[trigger]
                    out@.contains_key(p) ==> has_cell(t, p.0, p.1) && out@[p] == t[p.0][p.1],
                sound ==> forall|i: int|
                    0 <= i < it.index() ==> out@.contains_key(
                        ((#[trigger] triples[i]).0, triples[i].1),
                    ),
        {
            let (k, l, v) = triple;
            out.insert((k, l), v);
        }
        assert(sound ==> out@ =~= cells_by_pair(t));
        out
    }
}

impl<K, V> Flatten for HashMap<K, Vec<V>> where K: Eq + Hash + Clone {
    type Output = HashMap<(K, usize), V>;

    open spec fn keys_behave() -> bool {
        &&& hashes_soundly::<K>()
        &&& hashes_soundly::<(K, usize)>()
        &&& clones_faithfully::<K>()
    }

    /// One entry for each element, keyed by the key of its sequence and
    /// its position there.
    open spec fn flattens_to(&self, out: &Self::Output) -> bool {
        out@ == elements_by_position(keyed_seqs(*self))
    }

    fn flatten(self) -> (out: Self::Output)
        ensures
            Self::keys_behave() ==> out@ == elements_by_position(keyed_seqs(self)),
    {
        let ghost sound = Self::keys_behave();
        let ghost m = keyed_seqs(self);
        let columns = into_entries(self);
        let mut out: HashMap<(K, usize), V> = HashMap::new();
        for column in it: columns
            invariant
                sound == Self::keys_behave(),
                m == keyed_seqs(self),
                it.seq() == columns@,
                sound ==> lists_entries(columns@, self@),
                sound ==> forall|p: (K, usize)| #[trigger]
                    out@.contains_key(p) ==> elements_by_position(m).contains_pair(p, out@[p]),
                sound ==> forall|e: int, i: usize|
                    0 <= e < it.index() && i < columns[e].1.len() ==> #[trigger] out@.contains_key(
                        (columns[e].0, i),
                    ),
        {
            let ghost n = it.index();
            let (key, items) = column;
            let mut index: usize = 0;
            for item in at: items
                invariant
                    sound == Self::keys_behave(),
                    0 <= n < columns.len(),
                    key == columns[n].0,
                    at.seq() == items@,
                    index == at.index(),
                    sound ==> m.contains_key(key) && m[key] == items@,
                    sound ==> forall|p: (K, usize)| #[trigger]
                        out@.contains_key(p) ==> elements_by_position(m).contains_pair(p, out@[p]),
                    sound ==> forall|e: int, i: usize|
                        0 <= e < n && i < columns[e].1.len() ==> #[trigger] out@.contains_key(
                            (columns[e].0, i),
                        ),
                    sound ==> forall|i: usize| i < index ==> #[trigger] out@.contains_key((key, i)),
            {
                let copy = key.clone();
                assert(cloned(key, copy));
                out.insert((copy, index), item);
                assert(index < items.len());
                index += 1;
            }
        }
        assert(sound ==> out@ =~= elements_by_position(m));
        out
    }
}

impl<K, V> Flatten for Vec<HashMap<K, V>> where K: Eq + Hash + Clone {
    type Output = HashMap<(usize, K), V>;

    open spec fn keys_behave() -> bool {
        hashes_soundly::<K>() && hashes_soundly::<(usize, K)>()
    }

    /// One entry for each value, keyed by the position of its record and
    /// its key there.
    open spec fn flattens_to(&self, out: &Self::Output) -> bool {
        out@ == values_by_record(records(*self))
    }

    fn flatten(self) -> (out: Self::Output)
        ensures
            Self::keys_behave() ==> out@ == values_by_record(records(self)),
    {
        let ghost sound = Self::keys_behave();
        let ghost s = records(self);
        let mut out: HashMap<(usize, K), V> = HashMap::new();
        let mut index: usize = 0;
        for record in it: self
            invariant
                sound == Self::keys_behave(),
                s == records(self),
                it.seq() == self@,
                index == it.index(),
                sound ==> forall|p: (usize, K)| #[trigger]
                    out@.contains_key(p) ==> values_by_record(s).contains_pair(p, out@[p]),
                sound ==> forall|i: usize, k: K|
                    i < index && s[i as int].contains_key(k) ==> #[trigger] out@.contains_key((i, k)),
        {
            let cells = into_entries(record);
            for cell in at: cells
                invariant
                    sound == Self::keys_behave(),
                    0 <= index < s.len(),
                    at.seq() == cells@,
                    sound ==> lists_entries(cells@, s[index as int]),
                    sound ==> forall|p: (usize, K)| #[trigger]
                        out@.contains_key(p) ==> values_by_record(s).contains_pair(p, out@[p]),
                    sound ==> forall|i: usize, k: K|
                        i < index && s[i as int].contains_key(k) ==> #[trigger] out@.contains_key(
                            (i, k),
                        ),
                    sound ==> forall|c: int|
                        0 <= c < at.index() ==> out@.contains_key((index, (#[trigger] cells[c]).0)),
            {
                let (key, value) = cell;
                out.insert((index, key), value);
            }
            assert(index < self.len());
            index += 1;
        }
        assert(sound ==> out@ =~= values_by_record(s));
        out
    }
}

} // verus!
