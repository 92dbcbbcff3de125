//! What the contracts of the keyed operations ask of a key type.

use vstd::prelude::*;
use vstd::std_specs::hash::obeys_key_model;

verus! {

/// Hashing and `==` on `K` are deterministic and agree with equality of
/// values, so that a hash map keyed by `K` behaves as the map it models.
pub open spec fn hashes_soundly<K>() -> bool {
    obeys_key_model::<K>()
}

/// A clone of a `K` is equal to the value it was cloned from.
pub open spec fn clones_faithfully<K: Clone>() -> bool {
    forall|a: K, b: K| #[trigger] cloned(a, b) ==> a == b
}

} // verus!
