//! Between a map of sequences and a sequence of maps.

use std::collections::hash_map::Entry;
use std::collections::HashMap;
use std::hash::Hash;
use vstd::prelude::*;
use crate::entries::{into_entries, lemma_entries_len, lists_entries};
use crate::keyed::{
    aligned, even, keyed_seqs, lemma_uneven_zip_not_aligned, lemma_zip_then_stack, no_empty_seq,
    record_at, records, stacked, uneven, zips_to,
};
use crate::keys::{clones_faithfully, hashes_soundly};
use crate::transpose::Transpose;

verus! {

broadcast use vstd::std_specs::hash::group_hash_axioms;

/// The length of the longest sequence among `columns`.
fn longest<K, V>(columns: &Vec<(K, Vec<V>)>) -> (height: usize)
    ensures
        forall|e: int| 0 <= e < columns.len() ==> (#[trigger] columns[e]).1.len() <= height,
        height > 0 ==> exists|e: int| 0 <= e < columns.len() && (#[trigger] columns[e]).1.len() == height,
{
    let mut height: usize = 0;
    for n in 0..columns.len()
        invariant
            forall|e: int| 0 <= e < n ==> (#[trigger] columns[e]).1.len() <= height,
            height > 0 ==> exists|e: int| 0 <= e < n && (#[trigger] columns[e]).1.len() == height,
    {
        if columns[n].1.len() > height {
            height = columns[n].1.len();
        }
    }
    height
}

impl<K, V> Transpose for HashMap<K, Vec<V>> where K: Eq + Hash + Clone {
    type Output = Vec<HashMap<K, V>>;

    open spec fn keys_behave() -> bool {
        hashes_soundly::<K>() && clones_faithfully::<K>()
    }

    /// The result is the ragged zip of the sequences: a sequence that ends
    /// early stops contributing, and nothing fails.
    open spec fn transposes_to(&self, out: &Self::Output) -> bool {
        zips_to(keyed_seqs(*self), records(*out))
    }

    fn transpose(self) -> (out: Self::Output)
        ensures
            Self::keys_behave() ==> zips_to(keyed_seqs(self), records(out)),
    {
        let ghost sound = Self::keys_behave();
        let ghost m = keyed_seqs(self);
        let columns = into_entries(self);
        let height = longest(&columns);
        let mut out: Vec<HashMap<K, V>> = Vec::new();
        for i in 0..height
            invariant
                out.len() == i,
                forall|j: int| 0 <= j < i ==> (#[trigger] out[j])@ == Map::<K, V>::empty(),
        {
            out.push(HashMap::new());
        }
        for column in it: columns
            invariant
                sound == Self::keys_behave(),
                m == keyed_seqs(self),
                it.seq() == columns@,
                out.len() == height,
                forall|e: int| 0 <= e < columns.len() ==> (#[trigger] columns[e]).1.len() <= height,
                sound ==> lists_entries(columns@, self@),
                sound ==> forall|i: int, k: K|
                    0 <= i < height && #[trigger] out[i]@.contains_key(k) ==> record_at(m, i).contains_pair(
                        k,
                        out[i]@[k],
                    ),
                sound ==> forall|e: int, i: int|
                    0 <= e < it.index() && 0 <= i < columns[e].1.len() ==> (#[trigger] out[i])@.contains_key(
                        (#[trigger] columns[e]).0,
                    ),
        {
            let ghost n = it.index();
            let (key, items) = column;
            let mut i: usize = 0;
            for item in at: items
                invariant
                    sound == Self::keys_behave(),
                    0 <= n < columns.len(),
                    key == columns[n].0,
                    items == columns[n].1,
                    at.seq() == items@,
                    i == at.index(),
                    items.len() <= height,
                    out.len() == height,
                    forall|e: int| 0 <= e < columns.len() ==> (#[trigger] columns[e]).1.len() <= height,
                    sound ==> m.contains_key(key) && m[key] == items@,
                    sound ==> forall|i: int, k: K|
                        0 <= i < height && #[trigger] out[i]@.contains_key(k) ==> record_at(
                            m,
                            i,
                        ).contains_pair(k, out[i]@[k]),
                    sound ==> forall|e: int, i: int|
                        0 <= e < n && 0 <= i < columns[e].1.len() ==> (#[trigger] out[i])@.contains_key(
                            (#[trigger] columns[e]).0,
                        ),
                    sound ==> forall|j: int| 0 <= j < i ==> (#[trigger] out[j])@.contains_key(key),
            {
                let copy = key.clone();
                assert(cloned(key, copy));
                out[i].insert(copy, item);
                i += 1;
            }
        }
        proof {
            let s = records(out);
            if sound && s.len() > 0 {
                let e = choose|e: int| 0 <= e < columns.len() && (#[trigger] columns[e]).1.len() == height;
                assert(m.contains_key(columns[e].0) && m[columns[e].0].len() == s.len());
            }
            assert forall|i: int| sound && 0 <= i < s.len() implies #[trigger] s[i] == record_at(m, i) by {}
        }
        out
    }
}

/// The sequence of `output` under `key`, empty where it has none.
spec fn seq_or_empty<K, V>(output: Map<K, Seq<V>>, key: K) -> Seq<V> {
    if output.contains_key(key) {
        output[key]
    } else {
        Seq::empty()
    }
}

/// Each sequence of `output` holds the values of its key in the records
/// of `s`, from the first record on without a gap; among the first `n`
/// records its key is in no later one, and no other key is in any.
spec fn in_step<K, V>(output: Map<K, Seq<V>>, s: Seq<Map<K, V>>, n: int) -> bool {
    &&& forall|k: K, j: int|
        #![trigger output[k][j]]
        #![trigger s[j].contains_key(k)]
        output.contains_key(k) && 0 <= j < output[k].len() ==> s[j].contains_key(k) && s[j][k]
            == output[k][j]
    &&& forall|k: K, j: int|
        output.contains_key(k) && output[k].len() <= j < n ==> !#[trigger] s[j].contains_key(k)
    &&& forall|k: K, j: int|
        0 <= j < n && #[trigger] s[j].contains_key(k) ==> output.contains_key(k)
}

/// What holds of the sequences gathered from the first `n` records of `s`,
/// while no key has been found out of step.
spec fn gathered<K, V>(output: Map<K, Seq<V>>, s: Seq<Map<K, V>>, n: int) -> bool {
    &&& in_step(output, s, n)
    &&& forall|k: K| #[trigger] output.contains_key(k) ==> 1 <= output[k].len() <= n
}

/// What holds while record `n` of `s` is gathered, its first `c` cells
/// done: the keys of those cells have a sequence of `n + 1` values, and no
/// other key has more than `n`.
spec fn gathering<K, V>(
    output: Map<K, Seq<V>>,
    s: Seq<Map<K, V>>,
    n: int,
    cells: Seq<(K, V)>,
    c: int,
) -> bool {
    &&& in_step(output, s, n)
    &&& forall|k: K| #[trigger] output.contains_key(k) ==> 1 <= output[k].len() <= n + 1
    &&& forall|d: int|
        0 <= d < c ==> output.contains_key((#[trigger] cells[d]).0) && output[cells[d].0].len() == n
            + 1
    &&& forall|d: int|
        c <= d < cells.len() && output.contains_key((#[trigger] cells[d]).0)
            ==> output[cells[d].0].len() <= n
}

/// Gathering a record starts from what was gathered before it.
proof fn lemma_gathering_starts<K, V>(output: Map<K, Seq<V>>, s: Seq<Map<K, V>>, n: int, cells: Seq<(K, V)>)
    requires
        gathered(output, s, n),
    ensures
        gathering(output, s, n, cells, 0),
{
}

/// Once every cell of record `n` is done, the record is gathered.
proof fn lemma_gathering_ends<K, V>(output: Map<K, Seq<V>>, s: Seq<Map<K, V>>, n: int, cells: Seq<(K, V)>)
    requires
        0 <= n < s.len(),
        lists_entries(cells, s[n]),
        gathering(output, s, n, cells, cells.len() as int),
    ensures
        gathered(output, s, n + 1),
{
}

/// A key of record `n` whose sequence so far is not `n` long shows that the
/// records are not aligned.
proof fn lemma_out_of_step<K, V>(output: Map<K, Seq<V>>, s: Seq<Map<K, V>>, n: int, cells: Seq<(K, V)>, c: int)
    requires
        0 <= n < s.len(),
        0 <= c < cells.len(),
        lists_entries(cells, s[n]),
        gathering(output, s, n, cells, c),
        seq_or_empty(output, cells[c].0).len() != n,
    ensures
        !aligned(s),
{
    let key = cells[c].0;
    if output.contains_key(key) {
        let short = output[key].len() as int;
        assert(!s[short].contains_key(key));
    } else {
        assert(!s[0].contains_key(key));
    }
}

/// A key of record `n` whose sequence so far is `n` long takes the value
/// of its cell, and the gathering goes on with the next cell.
proof fn lemma_gathering_steps<K, V>(
    output: Map<K, Seq<V>>,
    after: Map<K, Seq<V>>,
    s: Seq<Map<K, V>>,
    n: int,
    cells: Seq<(K, V)>,
    c: int,
)
    requires
        0 <= n < s.len(),
        0 <= c < cells.len(),
        lists_entries(cells, s[n]),
        gathering(output, s, n, cells, c),
        seq_or_empty(output, cells[c].0).len() == n,
        after == output.insert(cells[c].0, seq_or_empty(output, cells[c].0).push(cells[c].1)),
    ensures
        gathering(after, s, n, cells, c + 1),
{
}

/// Once every record is gathered, the keys whose sequence is as long as
/// `s` are the keys of the last record.
proof fn lemma_full_keys<K, V>(output: Map<K, Seq<V>>, s: Seq<Map<K, V>>)
    requires
        s.len() > 0,
        gathered(output, s, s.len() as int),
    ensures
        s.last().dom().subset_of(output.dom()),
        forall|k: K| #[trigger] output.contains_key(k) ==> (output[k].len() == s.len() <==> s.last().contains_key(k)),
{
}

/// Once every record is gathered, more keys than the last record has
/// show that the records are not aligned.
proof fn lemma_some_fell_short<K, V>(output: Map<K, Seq<V>>, s: Seq<Map<K, V>>)
    requires
        gathered(output, s, s.len() as int),
        output.dom().finite(),
        s.len() > 0 ==> s.last().dom().finite() && output.len() != s.last().len(),
        s.len() == 0 ==> output.len() != 0,
    ensures
        !aligned(s),
{
    if s.len() == 0 {
        assert(output.dom() =~= Set::<K>::empty());
    } else {
        lemma_full_keys(output, s);
        if !(s.last().dom() =~= output.dom()) {
            let k = choose|k: K| output.dom().contains(k) && !s.last().dom().contains(k);
            assert(s[0].contains_key(k));
        }
    }
}

/// Once every record is gathered, as many keys as the last record has
/// show that the records are aligned, and the sequences are what they
/// stack up to.
proof fn lemma_none_fell_short<K, V>(output: Map<K, Seq<V>>, s: Seq<Map<K, V>>)
    requires
        gathered(output, s, s.len() as int),
        output.dom().finite(),
        s.len() > 0 ==> s.last().dom().finite() && output.len() == s.last().len(),
    ensures
        aligned(s),
        output == stacked(s),
{
    if s.len() > 0 {
        lemma_full_keys(output, s);
        vstd::set_lib::lemma_subset_equality(s.last().dom(), output.dom());
    }
    assert forall|k: K| #[trigger] output.contains_key(k) implies output[k] =~= stacked(s)[k] by {}
}

impl<K, V> Transpose for Vec<HashMap<K, V>> where K: Eq + Hash + Clone {
    type Output = Option<HashMap<K, Vec<V>>>;

    open spec fn keys_behave() -> bool {
        hashes_soundly::<K>()
    }

    /// Records that all have the same keys stack up to one sequence for
    /// each key; records that do not give `None`.
    open spec fn transposes_to(&self, out: &Self::Output) -> bool {
        match out {
            Some(columns) => aligned(records(*self)) && keyed_seqs(*columns) == stacked(records(*self)),
            None => !aligned(records(*self)),
        }
    }

    fn transpose(self) -> (out: Self::Output)
        ensures
            Self::keys_behave() ==> match out {
                Some(columns) => aligned(records(self)) && keyed_seqs(columns) == stacked(records(self)),
                None => !aligned(records(self)),
            },
    {
        let ghost sound = Self::keys_behave();
        let ghost s = records(self);
        let mut output: HashMap<K, Vec<V>> = HashMap::new();
        let mut index: usize = 0;
        let mut last_keys: usize = 0;
        for record in it: self
            invariant
                sound == hashes_soundly::<K>(),
                s == records(self),
                it.seq() == self@,
                index == it.index(),
                sound ==> gathered(keyed_seqs(output), s, index as int),
                sound && index > 0 ==> last_keys == s[index - 1].len(),
                index == 0 ==> last_keys == 0,
        {
            let cells = into_entries(record);
            last_keys = cells.len();
            proof {
                if sound {
                    lemma_gathering_starts(keyed_seqs(output), s, index as int, cells@);
                    lemma_entries_len(cells@, s[index as int]);
                }
            }
            for cell in at: cells
                invariant
                    sound == hashes_soundly::<K>(),
                    s == records(self),
                    0 <= index < s.len(),
                    at.seq() == cells@,
                    sound ==> lists_entries(cells@, s[index as int]),
                    sound ==> gathering(keyed_seqs(output), s, index as int, cells@, at.index()),
            {
                let ghost before = keyed_seqs(output);
                let (key, value) = cell;
                let items = match output.entry(key) {
                    Entry::Occupied(entry) => entry.into_mut(),
                    Entry::Vacant(entry) => entry.insert(Vec::new()),
                };
                if items.len() != index {
                    proof {
                        if sound {
                            lemma_out_of_step(before, s, index as int, cells@, at.index());
                        }
                    }
                    return None;
                }
                items.push(value);
                proof {
                    if sound {
                        assert(keyed_seqs(output) =~= before.insert(key, seq_or_empty(before, key).push(value)));
                        lemma_gathering_steps(before, keyed_seqs(output), s, index as int, cells@, at.index());
                    }
                }
            }
            proof {
                if sound {
                    lemma_gathering_ends(keyed_seqs(output), s, index as int, cells@);
                }
            }
            assert(index < self.len());
            index += 1;
        }
        assert(keyed_seqs(output).dom() =~= output@.dom());
        if output.len() != last_keys {
            proof {
                if sound {
                    lemma_some_fell_short(keyed_seqs(output), s);
                }
            }
            return None;
        }
        proof {
            if sound {
                lemma_none_fell_short(keyed_seqs(output), s);
            }
        }
        Some(output)
    }
}

/// A map of sequences that all have the same length, none of them empty,
/// comes back from the two transpositions as it was.
pub proof fn lemma_round_trip_even<K: Eq + Hash + Clone, V>(
    m: HashMap<K, Vec<V>>,
    s: Vec<HashMap<K, V>>,
    back: Option<HashMap<K, Vec<V>>>,
)
    requires
        m.transposes_to(&s),
        s.transposes_to(&back),
        even(keyed_seqs(m)),
        no_empty_seq(keyed_seqs(m)),
    ensures
        back is Some,
        keyed_seqs(back->0) == keyed_seqs(m),
{
    lemma_zip_then_stack(keyed_seqs(m), records(s));
}

/// A map of sequences of which two, neither empty, differ in length does
/// not come back from the two transpositions: the second gives `None`.
pub proof fn lemma_round_trip_uneven<K: Eq + Hash + Clone, V>(
    m: HashMap<K, Vec<V>>,
    s: Vec<HashMap<K, V>>,
    back: Option<HashMap<K, Vec<V>>>,
)
    requires
        m.transposes_to(&s),
        s.transposes_to(&back),
        uneven(keyed_seqs(m)),
    ensures
        back is None,
{
    lemma_uneven_zip_not_aligned(keyed_seqs(m), records(s));
}

} // verus!
