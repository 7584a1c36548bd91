//! The frozen key set: a serialised set that is read where it lies.

use vstd::prelude::*;
use splinter_rs::SplinterRef;
use crate::format::{check_structure, framing_error, well_formed};
use crate::model::{
    ascending, lemma_ascending_len, lemma_ascending_nth, lemma_nth_key, nth_key, rank_of,
};
use crate::splinter::SplinterWrapper;
use crate::store::{
    decode_error, encoded_keys, view_buffer, view_bytes, view_cardinality,
    view_contains, view_decode, view_open, view_rank, view_select, view_to_vec,
};
use crate::types::DecodeError;

verus! {

/// The error with which decoding turns a buffer down; `None` where it takes it. The
/// decoder's own checks come first. A buffer that passes them and lacks the structure
/// of a serialised set is invalid.
pub open spec fn rejection(bytes: Seq<u8>) -> Option<DecodeError> {
    match decode_error(bytes) {
        Some(e) => Some(e),
        None => if well_formed(bytes) {
            None
        } else {
            Some(DecodeError::Validity)
        },
    }
}

/// A key set that owns nothing but its serialised bytes. It answers the same
/// questions as the editable set and cannot be changed.
///
/// Its view is the set of the keys that the bytes encode.
pub struct FrozenSplinter {
    view: SplinterRef<Vec<u8>>,
}

impl View for FrozenSplinter {
    type V = Set<u32>;

    open spec fn view(&self) -> Set<u32> {
        encoded_keys(self.bytes())
    }
}

impl FrozenSplinter {
    #[verifier::type_invariant]
    spec fn decodes(self) -> bool {
        rejection(view_bytes(self.view)) is None
    }

    /// The bytes that the set is read from.
    pub closed spec fn bytes(&self) -> Seq<u8> {
        view_bytes(self.view)
    }

    /// Takes over a serialised set without decoding it. Any buffer may be handed in:
    /// the decoder checks its length, magic and checksum, then the structure of every
    /// partition is walked, and a buffer that fails either is turned down. What
    /// the length and the two ends of the buffer call for is the error returned.
    pub fn from_bytes(data: Vec<u8>) -> (r: Result<FrozenSplinter, DecodeError>)
        ensures
            r is Ok <==> rejection(data@) is None,
            r matches Ok(frozen) ==> frozen.bytes() == data@,
            r matches Err(e) ==> rejection(data@) == Some(e),
            r is Ok ==> framing_error(data@) is None,
            r matches Err(e) ==> framing_error(data@) is None || framing_error(data@) == Some(e),
    {
        match view_open(data) {
            Ok(view) => {
                if check_structure(view_buffer(&view).as_slice()) {
                    Ok(FrozenSplinter { view })
                } else {
                    Err(DecodeError::Validity)
                }
            },
            Err(e) => Err(e),
        }
    }

    /// The bytes of the set. They decode.
    pub fn as_bytes(&self) -> (out: &Vec<u8>)
        ensures
            out@ == self.bytes(),
            rejection(out@) is None,
    {
        proof {
            use_type_invariant(self);
        }
        view_buffer(&self.view)
    }

    /// The number of keys in the set.
    pub fn len(&self) -> (n: usize)
        ensures
            n == self@.len(),
    {
        proof {
            use_type_invariant(self);
        }
        view_cardinality(&self.view)
    }

    /// Whether the set holds the key.
    pub fn contains_key(&self, key: u32) -> (found: bool)
        ensures
            found == self@.contains(key),
    {
        proof {
            use_type_invariant(self);
        }
        view_contains(&self.view, key)
    }

    /// The number of keys in the set that are at most `key`.
    pub fn rank(&self, key: u32) -> (n: usize)
        ensures
            n == rank_of(self@, key),
    {
        proof {
            use_type_invariant(self);
        }
        view_rank(&self.view, key)
    }

    /// The key at position `idx` of the ascending order, counted from zero; `None`
    /// where `idx` is not below the cardinality.
    pub fn select(&self, idx: usize) -> (r: Option<u32>)
        ensures
            r == nth_key(self@, idx as nat),
            r is Some <==> idx < self@.len(),
    {
        proof {
            use_type_invariant(self);
        }
        let r = view_select(&self.view, idx);
        proof {
            lemma_nth_key(self@, idx as nat);
        }
        r
    }

    /// The keys in ascending order, each once, read from the bytes where they lie:
    /// the key at index `i` of the list is the one that `select` gives for `i`.
    pub fn to_list(&self) -> (out: Vec<u32>)
        ensures
            ascending(out@),
            out@.to_set() == self@,
            out@.len() == self@.len(),
            forall|i: int|
                0 <= i < out@.len() ==> nth_key(self@, i as nat) == Some(#[trigger] out@[i]),
    {
        proof {
            use_type_invariant(self);
        }
        let out = view_to_vec(&self.view);
        proof {
            lemma_ascending_len(out@);
            assert forall|i: int| 0 <= i < out@.len() implies nth_key(self@, i as nat) == Some(
                #[trigger] out@[i],
            ) by {
                lemma_ascending_nth(out@, i);
                lemma_nth_key(self@, i as nat);
            }
        }
        out
    }

    /// Decodes the set into an editable one of the same keys. The frozen set stays.
    pub fn thaw(&self) -> (set: SplinterWrapper)
        ensures
            set@ == self@,
    {
        proof {
            use_type_invariant(self);
        }
        SplinterWrapper::from_inner(view_decode(&self.view))
    }
}

} // verus!
