//! An ordered, compressed set of 32-bit keys with verified contracts.
//!
//! The set is stored by `splinter_rs`. This crate states what each of its operations
//! does to the set of keys, proves its own batch operations and the laws of the set
//! algebra against those statements, and offers the set in two forms:
//! [`SplinterWrapper`], which can be edited, and [`FrozenSplinter`], which is read in
//! place from its serialised bytes. A buffer from elsewhere is walked by a verified
//! check of its structure before anything is read from it.

pub mod format;
pub mod frozen;
pub mod laws;
pub mod model;
pub mod splinter;
pub mod store;
pub mod types;

pub use frozen::FrozenSplinter;
pub use splinter::SplinterWrapper;
pub use types::{BoolOrVec, DecodeError, KeyArg, KeyNotFound, SplinterType};
