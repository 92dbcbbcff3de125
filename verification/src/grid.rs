//! Matrices as sequences of rows, and what it means to transpose one.

use vstd::prelude::*;

verus! {

/// The rows of `rows` as sequences.
pub open spec fn grid<T>(rows: Vec<Vec<T>>) -> Seq<Seq<T>> {
    rows@.map_values(|row: Vec<T>| row@)
}

/// The rows of a fixed-size matrix as sequences.
pub open spec fn array_grid<T, const X: usize, const Y: usize>(rows: [[T; X]; Y]) -> Seq<Seq<T>> {
    rows@.map_values(|row: [T; X]| row@)
}

/// Every row of `m` has the same length. A matrix without rows is rectangular.
pub open spec fn rectangular<T>(m: Seq<Seq<T>>) -> bool {
    forall|i: int, j: int| 0 <= i < m.len() && 0 <= j < m.len() ==> m[i].len() == m[j].len()
}

/// Two rows of `m` differ in length.
pub open spec fn ragged<T>(m: Seq<Seq<T>>) -> bool {
    exists|i: int, j: int| 0 <= i < m.len() && 0 <= j < m.len() && m[i].len() != m[j].len()
}

/// The number of columns of `m`: the length of its first row, and zero
/// where it has no row.
pub open spec fn width<T>(m: Seq<Seq<T>>) -> nat {
    if m.len() == 0 {
        0
    } else {
        m[0].len()
    }
}

/// The first `n` columns of `m`, each read from the first row to the last.
pub open spec fn columns<T>(m: Seq<Seq<T>>, n: nat) -> Seq<Seq<T>> {
    Seq::new(n, |j: int| Seq::new(m.len(), |i: int| m[i][j]))
}

/// The transpose of `m`: the cell at row `i`, column `j` of `m` stands at
/// row `j`, column `i`. A matrix whose rows are empty has no column, so its
/// transpose has no row.
pub open spec fn transposed<T>(m: Seq<Seq<T>>) -> Seq<Seq<T>> {
    columns(m, width(m))
}

/// A matrix is ragged exactly when it is not rectangular.
pub proof fn lemma_ragged_iff_not_rectangular<T>(m: Seq<Seq<T>>)
    ensures
        ragged(m) <==> !rectangular(m),
{
}

/// The transpose of a rectangular matrix is rectangular, and as wide as the
/// matrix is tall, unless the matrix has no column.
pub proof fn lemma_transposed_shape<T>(m: Seq<Seq<T>>)
    ensures
        rectangular(transposed(m)),
        transposed(m).len() == width(m),
        width(m) > 0 ==> width(transposed(m)) == m.len(),
{
}

/// Transposing a rectangular matrix twice gives it back, provided that it
/// has no row or its rows are not empty.
pub proof fn lemma_transposed_twice<T>(m: Seq<Seq<T>>)
    requires
        rectangular(m),
        m.len() > 0 ==> width(m) > 0,
    ensures
        transposed(transposed(m)) == m,
{
    let t = transposed(m);
    let back = transposed(t);
    if m.len() == 0 {
    } else {
        assert forall|i: int| 0 <= i < m.len() implies back[i] =~= m[i] by {
        }
    }
}

} // verus!
