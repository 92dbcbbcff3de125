//! Transposing a matrix held as a vector of rows.

use vstd::prelude::*;
use crate::grid::{
    columns, grid, lemma_transposed_shape, lemma_transposed_twice, ragged, rectangular, transposed,
};
use crate::transpose::Transpose;

verus! {

/// Moves the cells of `rows`, which all have `n_cols` cells, into `n_cols`
/// columns, each in row order.
pub(crate) fn gather_columns<T>(rows: Vec<Vec<T>>, n_cols: usize) -> (cols: Vec<Vec<T>>)
    requires
        forall|i: int| 0 <= i < rows.len() ==> rows[i].len() == n_cols,
    ensures
        grid(cols) == columns(grid(rows), n_cols as nat),
{
    let ghost m = grid(rows);
    let mut cols: Vec<Vec<T>> = Vec::new();
    for j in 0..n_cols
        invariant
            cols.len() == j,
            forall|c: int| 0 <= c < j ==> cols[c]@ == Seq::<T>::empty(),
    {
        cols.push(Vec::new());
    }
    for row in it: rows
        invariant
            m == grid(rows),
            it.seq() == rows@,
            cols.len() == n_cols,
            forall|i: int| 0 <= i < m.len() ==> (#[trigger] m[i]).len() == n_cols,
            forall|c: int| 0 <= c < n_cols ==> (#[trigger] cols[c])@ == Seq::new(it.index() as nat, |i: int| m[i][c]),
    {
        let ghost r = it.index();
        let mut j: usize = 0;
        for cell in cells: row
            invariant
                cells.seq() == m[r],
                j == cells.index(),
                0 <= r < m.len(),
                m[r].len() == n_cols,
                cols.len() == n_cols,
                forall|c: int| 0 <= c < j ==> (#[trigger] cols[c])@ == Seq::new((r + 1) as nat, |i: int| m[i][c]),
                forall|c: int| j <= c < n_cols ==> (#[trigger] cols[c])@ == Seq::new(r as nat, |i: int| m[i][c]),
        {
            cols[j].push(cell);
            j += 1;
        }
    }
    cols
}

impl<T> Transpose for Vec<Vec<T>> {
    type Output = Option<Vec<Vec<T>>>;

    /// A rectangular matrix transposes to its columns; a ragged one to `None`.
    open spec fn transposes_to(&self, out: &Self::Output) -> bool {
        match out {
            Some(cols) => rectangular(grid(*self)) && grid(*cols) == transposed(grid(*self)),
            None => ragged(grid(*self)),
        }
    }

    fn transpose(self) -> (out: Self::Output)
        ensures
            match out {
                Some(cols) => rectangular(grid(self)) && grid(cols) == transposed(grid(self)),
                None => ragged(grid(self)),
            },
    {
        if self.len() == 0 {
            let cols: Vec<Vec<T>> = Vec::new();
            assert(grid(cols) =~= transposed(grid(self)));
            return Some(cols);
        }
        let n_cols = self[0].len();
        for i in 0..self.len()
            invariant
                self.len() > 0,
                n_cols == self[0].len(),
                forall|k: int| 0 <= k < i ==> self[k].len() == n_cols,
        {
            if self[i].len() != n_cols {
                assert(grid(self)[i as int].len() != grid(self)[0].len());
                return None;
            }
        }
        Some(gather_columns(self, n_cols))
    }
}

/// Transposing a matrix and then its transpose gives the matrix back,
/// provided that the matrix has no row or its rows are not empty.
pub proof fn lemma_transpose_round_trip<T>(
    m: Vec<Vec<T>>,
    once: Vec<Vec<T>>,
    twice: Option<Vec<Vec<T>>>,
)
    requires
        m.transposes_to(&Some(once)),
        once.transposes_to(&twice),
        m.len() > 0 ==> m[0].len() > 0,
    ensures
        twice is Some,
        grid(twice->0) == grid(m),
{
    lemma_transposed_twice(grid(m));
    lemma_transposed_shape(grid(m));
}

/// A matrix with two rows of different lengths has no transpose.
pub proof fn lemma_ragged_has_no_transpose<T>(m: Vec<Vec<T>>, out: Option<Vec<Vec<T>>>)
    requires
        ragged(grid(m)),
        m.transposes_to(&out),
    ensures
        out is None,
{
}

} // verus!
