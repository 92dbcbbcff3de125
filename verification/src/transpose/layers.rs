//! Layer swaps between two outcomes or two optionals.

use vstd::prelude::*;
use crate::transpose::Transpose;

verus! {

/// The outcome that results when the failure layers of `r` trade places.
pub open spec fn swap_outcomes<T, E, F>(r: Result<Result<T, E>, F>) -> Result<Result<T, F>, E> {
    match r {
        Ok(Ok(item)) => Ok(Ok(item)),
        Ok(Err(inner)) => Err(inner),
        Err(outer) => Ok(Err(outer)),
    }
}

/// The optional that results when the presence layers of `o` trade places.
pub open spec fn swap_optionals<T>(o: Option<Option<T>>) -> Option<Option<T>> {
    match o {
        Some(Some(item)) => Some(Some(item)),
        Some(None) => None,
        None => Some(None),
    }
}

/// Trading the failure layers twice gives the outcome back.
pub proof fn lemma_swap_outcomes_twice<T, E, F>(r: Result<Result<T, E>, F>)
    ensures
        swap_outcomes(swap_outcomes(r)) == r,
{
}

/// Trading the presence layers twice gives the optional back.
pub proof fn lemma_swap_optionals_twice<T>(o: Option<Option<T>>)
    ensures
        swap_optionals(swap_optionals(o)) == o,
{
}

impl<T, E, F> Transpose for Result<Result<T, E>, F> {
    type Output = Result<Result<T, F>, E>;

    open spec fn transposes_to(&self, out: &Self::Output) -> bool {
        *out == swap_outcomes(*self)
    }

    fn transpose(self) -> (out: Self::Output)
        ensures
            out == swap_outcomes(self),
    {
        match self {
            Ok(Ok(item)) => Ok(Ok(item)),
            Ok(Err(err)) => Err(err),
            Err(err) => Ok(Err(err)),
        }
    }
}

impl<T> Transpose for Option<Option<T>> {
    type Output = Option<Option<T>>;

    open spec fn transposes_to(&self, out: &Self::Output) -> bool {
        *out == swap_optionals(*self)
    }

    fn transpose(self) -> (out: Self::Output)
        ensures
            out == swap_optionals(self),
    {
        match self {
            Some(Some(item)) => Some(Some(item)),
            Some(None) => None,
            None => Some(None),
        }
    }
}

} // verus!
