//! A sparse, index-addressable container.
//!
//! An [`OptionVec`] owns an ordered sequence of slots, each vacant or occupied.
//! The position of a slot is the handle of the value it holds: the handle stays
//! valid, and unchanged, until that value is removed. A new value takes the
//! smallest vacant handle, so freed handles are used again.
//!
//! Contracts speak of a container through its view, the sequence of its slots
//! (`Seq<Option<T>>`), and through the spec functions of [`slots`].

pub mod slots;
pub mod option_vec;
pub mod iter;
pub mod compare;
pub mod extend;
pub mod index;
pub mod fmt;

pub use iter::{IntoIter, Iter, IterMut};
pub use option_vec::OptionVec;
