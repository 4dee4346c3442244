//! Small utilities: a fixed-size bit array stored in one unsigned integer,
//! an iterator wrapper over two alternatives, and support for listing the
//! values of an enum.

pub mod base;
pub mod bitarray;
mod sealed;

pub use base::Base;
pub use bitarray::{BitArray, BitArrayIter, Ones, Zeroes};
pub mod one_iter;
pub mod enums;
pub mod derive_enum_values;
