//! Doubly keyed tables and keyed sequences as maps, and how they pivot.

use std::collections::HashMap;
use vstd::prelude::*;

verus! {

/// A map of maps as the table it stands for.
pub open spec fn table<K, L, V>(m: HashMap<K, HashMap<L, V>>) -> Map<K, Map<L, V>> {
    m@.map_values(|inner: HashMap<L, V>| inner@)
}

/// `t` has a cell at outer key `k`, inner key `l`.
pub open spec fn has_cell<K, L, V>(t: Map<K, Map<L, V>>, k: K, l: L) -> bool {
    t.contains_key(k) && t[k].contains_key(l)
}

/// The pivot of `t`: the cell at (`k`, `l`) of `t` stands at (`l`, `k`).
/// An inner key of `t` is an outer key of the pivot exactly when some cell
/// of `t` has it, so no row of the pivot is empty.
pub open spec fn pivoted<K, L, V>(t: Map<K, Map<L, V>>) -> Map<L, Map<K, V>> {
    Map::new(
        |l: L| exists|k: K| has_cell(t, k, l),
        |l: L| Map::new(|k: K| has_cell(t, k, l), |k: K| t[k][l]),
    )
}

/// A map of vectors as the keyed sequences it stands for.
pub open spec fn keyed_seqs<K, V>(m: HashMap<K, Vec<V>>) -> Map<K, Seq<V>> {
    m@.map_values(|items: Vec<V>| items@)
}

/// A vector of maps as the sequence of records it stands for.
pub open spec fn records<K, V>(s: Vec<HashMap<K, V>>) -> Seq<Map<K, V>> {
    s@.map_values(|record: HashMap<K, V>| record@)
}

/// The record at position `i` of the keyed sequences `m`: each key whose
/// sequence reaches position `i`, with its element there.
pub open spec fn record_at<K, V>(m: Map<K, Seq<V>>, i: int) -> Map<K, V> {
    Map::new(|k: K| m.contains_key(k) && i < m[k].len(), |k: K| m[k][i])
}

/// `n` is the length of the longest sequence of `m`, zero where `m` has none.
pub open spec fn is_height<K, V>(m: Map<K, Seq<V>>, n: nat) -> bool {
    &&& forall|k: K| #[trigger] m.contains_key(k) ==> m[k].len() <= n
    &&& n > 0 ==> exists|k: K| #[trigger] m.contains_key(k) && m[k].len() == n
}

/// `s` is the ragged zip of `m`: one record for each position that some
/// sequence of `m` reaches, and no further one.
pub open spec fn zips_to<K, V>(m: Map<K, Seq<V>>, s: Seq<Map<K, V>>) -> bool {
    &&& is_height(m, s.len())
    &&& forall|i: int| 0 <= i < s.len() ==> #[trigger] s[i] == record_at(m, i)
}

/// Every sequence of `m` has the same length.
pub open spec fn even<K, V>(m: Map<K, Seq<V>>) -> bool {
    forall|a: K, b: K|
        #[trigger] m.contains_key(a) && #[trigger] m.contains_key(b) ==> m[a].len() == m[b].len()
}

/// No sequence of `m` is empty.
pub open spec fn no_empty_seq<K, V>(m: Map<K, Seq<V>>) -> bool {
    forall|k: K| #[trigger] m.contains_key(k) ==> m[k].len() > 0
}

/// Two sequences of `m` that are not empty differ in length.
pub open spec fn uneven<K, V>(m: Map<K, Seq<V>>) -> bool {
    exists|a: K, b: K|
        #[trigger] m.contains_key(a) && #[trigger] m.contains_key(b) && 0 < m[a].len() < m[b].len()
}

/// Every record of `s` has the same keys.
pub open spec fn aligned<K, V>(s: Seq<Map<K, V>>) -> bool {
    forall|i: int, j: int, k: K|
        0 <= i < s.len() && 0 <= j < s.len() && #[trigger] s[i].contains_key(k) ==> (
        #[trigger] s[j]).contains_key(k)
}

/// The keyed sequences that the records of `s` stack up to: under each key
/// of the first record, the values that the records hold for it, in order.
pub open spec fn stacked<K, V>(s: Seq<Map<K, V>>) -> Map<K, Seq<V>> {
    Map::new(
        |k: K| s.len() > 0 && s[0].contains_key(k),
        |k: K| Seq::new(s.len(), |i: int| s[i][k]),
    )
}

/// Keyed sequences have one ragged zip only.
pub proof fn lemma_zip_is_unique<K, V>(m: Map<K, Seq<V>>, s1: Seq<Map<K, V>>, s2: Seq<Map<K, V>>)
    requires
        zips_to(m, s1),
        zips_to(m, s2),
    ensures
        s1 == s2,
{
}

/// The ragged zip of keyed sequences that all have the same length, none
/// of them empty, is aligned and stacks up to the same keyed sequences.
pub proof fn lemma_zip_then_stack<K, V>(m: Map<K, Seq<V>>, s: Seq<Map<K, V>>)
    requires
        zips_to(m, s),
        even(m),
        no_empty_seq(m),
    ensures
        aligned(s),
        stacked(s) == m,
{
    assert forall|k: K| #[trigger] m.contains_key(k) implies stacked(s)[k] =~= m[k] by {}
}

/// The ragged zip of keyed sequences of which two, neither empty, differ
/// in length is not aligned.
pub proof fn lemma_uneven_zip_not_aligned<K, V>(m: Map<K, Seq<V>>, s: Seq<Map<K, V>>)
    requires
        zips_to(m, s),
        uneven(m),
    ensures
        !aligned(s),
{
    let (a, b) = choose|a: K, b: K|
        #[trigger] m.contains_key(a) && #[trigger] m.contains_key(b) && 0 < m[a].len() < m[b].len();
    let short = m[a].len() as int;
    assert(s[short] == record_at(m, short));
    assert(s[0].contains_key(a));
}

/// Some triple among the first `n` of `triples` has outer key `k` and inner key `l`.
pub open spec fn filed<K, L, V>(triples: Seq<(K, L, V)>, n: int, k: K, l: L) -> bool {
    exists|i: int| 0 <= i < n && (#[trigger] triples[i]).0 == k && triples[i].1 == l
}

/// No two of `triples` have both keys in common.
pub open spec fn distinct_cells<K, L, V>(triples: Seq<(K, L, V)>) -> bool {
    forall|i: int, j: int|
        0 <= i < j < triples.len() ==> !((#[trigger] triples[i]).0 == (#[trigger] triples[j]).0
            && triples[i].1 == triples[j].1)
}

/// Each of `triples` is a cell of `t`, with its outer key, inner key and value.
pub open spec fn cells_of<K, L, V>(triples: Seq<(K, L, V)>, t: Map<K, Map<L, V>>) -> bool {
    forall|i: int|
        0 <= i < triples.len() ==> has_cell(t, (#[trigger] triples[i]).0, triples[i].1)
            && t[triples[i].0][triples[i].1] == triples[i].2
}

/// `triples` holds each cell of `t` once: outer key, inner key, value.
pub open spec fn lists_cells<K, L, V>(triples: Seq<(K, L, V)>, t: Map<K, Map<L, V>>) -> bool {
    &&& distinct_cells(triples)
    &&& cells_of(triples, t)
    &&& forall|k: K, l: L| #[trigger] has_cell(t, k, l) ==> filed(triples, triples.len() as int, k, l)
}

} // verus!
