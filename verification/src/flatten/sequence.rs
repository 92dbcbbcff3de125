//! Flattening a sequence of sequences or of optionals.

use vstd::prelude::*;
use crate::flatten::Flatten;
use crate::grid::grid;

verus! {

/// The values of the present elements of `s`, in order.
pub open spec fn present_values<T>(s: Seq<Option<T>>) -> Seq<T> {
    s.filter(|o: Option<T>| o is Some).map_values(|o: Option<T>| o->0)
}

impl<T> Flatten for Vec<Vec<T>> {
    type Output = Vec<T>;

    /// The rows one after another, each in its own order.
    open spec fn flattens_to(&self, out: &Self::Output) -> bool {
        out@ == grid(*self).flatten()
    }

    fn flatten(self) -> (out: Self::Output)
        ensures
            out@ == grid(self).flatten(),
    {
        let ghost m = grid(self);
        let mut out: Vec<T> = Vec::new();
        for row in it: self
            invariant
                it.seq() == self@,
                m == grid(self),
                out@ == m.take(it.index()).flatten(),
        {
            let ghost n = it.index();
            let ghost done = out@;
            for cell in at: row
                invariant
                    at.seq() == row@,
                    out@ == done + row@.take(at.index()),
            {
                out.push(cell);
            }
            proof {
                assert(m.take(n + 1) =~= m.take(n).push(row@));
                m.take(n).lemma_flatten_push(row@);
            }
        }
        assert(m.take(m.len() as int) =~= m);
        out
    }
}

impl<T> Flatten for Vec<Option<T>> {
    type Output = Vec<T>;

    /// The values of the present elements, in order; an absent element
    /// leaves no trace.
    open spec fn flattens_to(&self, out: &Self::Output) -> bool {
        out@ == present_values(self@)
    }

    fn flatten(self) -> (out: Self::Output)
        ensures
            out@ == present_values(self@),
    {
        let mut out: Vec<T> = Vec::new();
        for element in it: self
            invariant
                it.seq() == self@,
                out@ == present_values(self@.take(it.index())),
        {
            let ghost n = it.index();
            proof {
                assert(self@.take(n + 1) =~= self@.take(n).push(element));
                self@.take(n).lemma_filter_push(element, |o: Option<T>| o is Some);
            }
            match element {
                Some(item) => out.push(item),
                None => {},
            }
        }
        assert(self@.take(self@.len() as int) =~= self@);
        out
    }
}

} // verus!
