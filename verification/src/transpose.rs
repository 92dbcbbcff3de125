//! Swapping two levels of nesting.

use vstd::prelude::*;

pub mod array;
pub mod layers;
pub mod matrix;
pub mod pivot;
pub mod sequence;
pub mod zip;

verus! {

/// Swaps the two outermost levels of a nested container.
///
/// Each implementation fixes, through `transposes_to`, the one value that
/// `transpose` may return for a given input.
pub trait Transpose: Sized {
    type Output;

    /// What the contract of `transpose` supposes of the key types of the
    /// shape. It holds of every shape that has no hashed key.
    open spec fn keys_behave() -> bool {
        true
    }

    /// Holds exactly when `out` is the transpose of `self`.
    spec fn transposes_to(&self, out: &Self::Output) -> bool;

    fn transpose(self) -> (out: Self::Output)
        ensures
            Self::keys_behave() ==> self.transposes_to(&out),
    ;
}

} // verus!
