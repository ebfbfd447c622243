//! A generic container for working with an object whose elements are
//! organized into lines (rows) of independent length.
//!
//! The central type is [`Jagged`], which wraps a vector of vectors: the outer
//! vector holds the rows, the inner vectors the elements of each row.
pub mod index;
pub mod jagged;
pub mod laws;
pub mod model;
pub mod traits;

pub use index::{Index2, RowIndex};
pub use jagged::extract::IndexBound;
pub use jagged::Jagged;
pub use traits::JaggedIndex;
