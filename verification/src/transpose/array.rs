//! Transposing a matrix whose size is fixed by its type.

use vstd::prelude::*;
use crate::arrays::{array_into_vec, vec_into_array};
use crate::grid::{array_grid, columns, grid};
use crate::transpose::matrix::gather_columns;
use crate::transpose::Transpose;

verus! {

broadcast use vstd::array::group_array_axioms;

impl<T, const X: usize, const Y: usize> Transpose for [[T; X]; Y] {
    type Output = [[T; Y]; X];

    /// The result holds the `X` columns of `self`, each read from the
    /// first row to the last. With rows of fixed length nothing can be
    /// ragged, so there is always a result.
    open spec fn transposes_to(&self, out: &Self::Output) -> bool {
        array_grid(*out) == columns(array_grid(*self), X as nat)
    }

    fn transpose(self) -> (out: Self::Output)
        ensures
            array_grid(out) == columns(array_grid(self), X as nat),
    {
        let ghost m = array_grid(self);
        let arrays = array_into_vec(self);
        let mut rows: Vec<Vec<T>> = Vec::new();
        for array in it: arrays
            invariant
                it.seq() == arrays@,
                arrays@ == self@,
                rows.len() == it.index(),
                forall|i: int| 0 <= i < it.index() ==> (#[trigger] rows[i])@ == self@[i]@,
        {
            rows.push(array_into_vec(array));
        }
        assert(grid(rows) =~= m);
        let cols = gather_columns(rows, X);
        let ghost t = grid(cols);
        let mut out: Vec<[T; Y]> = Vec::new();
        for col in it: cols
            invariant
                it.seq() == cols@,
                t == grid(cols),
                t == columns(m, X as nat),
                m.len() == Y,
                out.len() == it.index(),
                forall|j: int| 0 <= j < it.index() ==> (#[trigger] out[j])@ == t[j],
        {
            assert(col@ == t[it.index()]);
            assert(t.len() == cols@.len() && t.len() == X);
            match vec_into_array::<T, Y>(col) {
                Ok(array) => out.push(array),
                Err(_) => unreached(),
            }
        }
        assert(out.len() == t.len());
        match vec_into_array::<[T; Y], X>(out) {
            Ok(array) => {
                assert(array_grid(array) =~= t);
                array
            },
            Err(_) => unreached(),
        }
    }
}

} // verus!
