//! Shape transformations over nested containers: `Flatten` collapses one
//! level of nesting, `Transpose` swaps two levels.

mod arrays;
pub mod entries;
pub mod flatten;
pub mod grid;
pub mod keyed;
pub mod keys;
pub mod transpose;

pub use flatten::Flatten;
pub use transpose::Transpose;
