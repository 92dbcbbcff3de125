//! Collapsing one level of nesting.

use vstd::prelude::*;

pub mod keyed;
pub mod sequence;

verus! {

/// Collapses the two outermost levels of a nested container into one.
///
/// Each implementation fixes, through `flattens_to`, the one value that
/// `flatten` may return for a given input.
pub trait Flatten: Sized {
    type Output;

    /// What the contract of `flatten` supposes of the key types of the
    /// shape. It holds of every shape that has no hashed key.
    open spec fn keys_behave() -> bool {
        true
    }

    /// Holds exactly when `out` is `self` with its outer level collapsed.
    spec fn flattens_to(&self, out: &Self::Output) -> bool;

    fn flatten(self) -> (out: Self::Output)
        ensures
            Self::keys_behave() ==> self.flattens_to(&out),
    ;
}

} // verus!
