//! The plain values that pass in and out of the key set's operations.

use vstd::prelude::*;

verus! {

/// The three forms in which a key set can be held.
#[derive(Clone, Copy, Debug, PartialEq, Eq, Structural)]
pub enum SplinterType {
    /// Owned and editable.
    Splinter,
    /// Read in place from its serialised bytes.
    SplinterRef,
    /// Read in place until the first write, owned from then on.
    CowSplinter,
}

/// One key, or a batch of keys in the caller's order.
#[derive(Debug, PartialEq, Eq)]
pub enum KeyArg {
    One(u32),
    Many(Vec<u32>),
}

impl KeyArg {
    /// The keys that the argument names, without order or repeats.
    pub open spec fn keys(self) -> Set<u32> {
        match self {
            KeyArg::One(key) => set![key],
            KeyArg::Many(keys) => keys@.to_set(),
        }
    }
}

/// The answer to a membership query: one flag for one key, a flag per key for a batch.
#[derive(Debug, PartialEq, Eq)]
pub enum BoolOrVec {
    Bool(bool),
    Vec(Vec<bool>),
}

/// A key that was to be removed is not in the set.
#[derive(Clone, Copy, Debug, PartialEq, Eq, Structural)]
pub struct KeyNotFound {
    pub key: u32,
}

/// Why a buffer does not decode.
#[derive(Clone, Copy, Debug, PartialEq, Eq, Structural)]
pub enum DecodeError {
    /// The buffer is shorter than the data it announces.
    Length,
    /// A structure inside the buffer is malformed.
    Validity,
    /// The buffer does not end in the format's magic bytes.
    Magic,
    /// The stored checksum does not match the contents.
    Checksum,
    /// The buffer holds the first version of the format, which is not read.
    SplinterV1,
}

} // verus!
