//! Between fixed-size arrays and vectors.

use vstd::prelude::*;

verus! {

/// Moves the items of an array into a vector, through `Vec::from`.
/// Trusted: the vector holds the array's items, in the array's order.
#[verifier::external_body]
pub(crate) fn array_into_vec<T, const N: usize>(array: [T; N]) -> (items: Vec<T>)
    ensures
        items@ == array@,
{
    Vec::from(array)
}

/// Moves the items of a vector into an array of `N` items, through the
/// `TryFrom<Vec<T>>` of `[T; N]`. Trusted: a vector of exactly `N` items
/// gives the array of its items, in the vector's order; any other vector
/// comes back as it was.
#[verifier::external_body]
pub(crate) fn vec_into_array<T, const N: usize>(items: Vec<T>) -> (out: Result<[T; N], Vec<T>>)
    ensures
        match out {
            Ok(array) => items.len() == N && array@ == items@,
            Err(back) => items.len() != N && back@ == items@,
        },
{
    <[T; N]>::try_from(items)
}

} // verus!
