//! The compressed bitmap of `splinter_rs` and the worker pool of `rayon`, seen
//! through contracts.
//!
//! Nothing in this file is proved. Each item states, over the key set that a bitmap
//! holds, what the documentation and source of the outside crate say of one of its
//! functions; the rest of the crate is verified against these statements.

use vstd::prelude::*;
use rayon::iter::{IntoParallelRefIterator, ParallelIterator};
use splinter_rs::{
    Cut, DecodeErr, Encodable, Optimizable, PartitionRead, PartitionWrite, Splinter, SplinterRef,
};
use crate::format::{framing_error, well_formed};
use crate::model::{ascending, is_nth, rank_of, symmetric_difference};
use crate::splinter::SplinterWrapper;
use crate::types::DecodeError;

verus! {

/// `splinter_rs::Splinter`, the owned bitmap. Its fields are hidden: all that is said
/// of a value goes through `splinter_keys`, `splinter_encoding` and
/// `optimized_encoding`.
#[verifier::external_type_specification]
#[verifier::external_body]
pub struct ExSplinter(Splinter);

/// `splinter_rs::SplinterRef`, a bitmap read in place from the buffer `B` that holds
/// its serialised form. Its field is hidden: all that is said of a value goes through
/// `view_bytes`.
#[verifier::external_type_specification]
#[verifier::external_body]
#[verifier::reject_recursive_types(B)]
pub struct ExSplinterRef<B>(SplinterRef<B>);

/// The keys that a bitmap holds.
pub uninterp spec fn splinter_keys(s: Splinter) -> Set<u32>;

/// The bytes to which `Splinter::encode_to_splinter_ref` serialises a bitmap. They
/// depend on how the bitmap is laid out in memory, not on its keys alone.
pub uninterp spec fn splinter_encoding(s: Splinter) -> Seq<u8>;

/// The bytes to which a bitmap serialises once `Splinter::optimize` has run on it.
/// `optimize` walks the partitions from the leaves up and gives each the storage
/// whose size it reckons smallest; what it arrives at depends on the bitmap alone.
pub uninterp spec fn optimized_encoding(s: Splinter) -> Seq<u8>;

/// The bitmap is laid out as `Splinter::optimize` leaves one. The encoder returns
/// on such a bitmap. On another it can stop with a panic: in a tree it writes how
/// far each child lies before the index, and gives up where children that were
/// never optimised push that distance past what the level can hold.
pub uninterp spec fn laid_out(s: Splinter) -> bool;

/// The buffer that a `SplinterRef` reads from.
pub uninterp spec fn view_bytes(v: SplinterRef<Vec<u8>>) -> Seq<u8>;

/// What `SplinterRef::from_bytes` answers on a buffer: `None` where it takes the
/// buffer, else its error. It looks at the length, the trailing magic and checksum
/// and the outermost partition header, and at nothing inside: the partitions inside
/// are read later, and a malformed one makes the reader panic. The reads below are
/// therefore defined on well-formed buffers only.
pub uninterp spec fn decode_error(bytes: Seq<u8>) -> Option<DecodeError>;

/// The keys of the bitmap that `SplinterRef::decode_to_splinter` builds from a buffer.
pub uninterp spec fn encoded_keys(bytes: Seq<u8>) -> Set<u32>;

/// `Splinter::from_iter`: the bitmap of the given keys, in any order and with repeats.
#[verifier::external_body]
pub(crate) fn splinter_from_keys(keys: Vec<u32>) -> (s: Splinter)
    ensures
        splinter_keys(s) == keys@.to_set(),
{
    Splinter::from_iter(keys)
}

/// `Splinter::iter`, collected: every key once, in ascending order.
#[verifier::external_body]
pub(crate) fn splinter_to_vec(s: &Splinter) -> (out: Vec<u32>)
    ensures
        ascending(out@),
        out@.to_set() == splinter_keys(*s),
{
    s.iter().collect()
}

/// `Splinter::clone`: a bitmap of the same keys.
#[verifier::external_body]
pub(crate) fn splinter_clone(s: &Splinter) -> (copy: Splinter)
    ensures
        splinter_keys(copy) == splinter_keys(*s),
{
    s.clone()
}

/// `Splinter::cardinality`: the number of keys.
#[verifier::external_body]
pub(crate) fn splinter_cardinality(s: &Splinter) -> (n: usize)
    ensures
        n == splinter_keys(*s).len(),
{
    s.cardinality()
}

/// `Splinter::contains`: whether the key is held.
#[verifier::external_body]
pub(crate) fn splinter_contains(s: &Splinter, key: u32) -> (found: bool)
    ensures
        found == splinter_keys(*s).contains(key),
{
    s.contains(key)
}

/// `Splinter::rank`: the number of keys that are at most `key`.
#[verifier::external_body]
pub(crate) fn splinter_rank(s: &Splinter, key: u32) -> (n: usize)
    ensures
        n == rank_of(splinter_keys(*s), key),
{
    s.rank(key)
}

/// `Splinter::select`: the key with exactly `idx` keys below it, `None` where `idx`
/// is not below the cardinality.
#[verifier::external_body]
pub(crate) fn splinter_select(s: &Splinter, idx: usize) -> (r: Option<u32>)
    ensures
        r is Some <==> idx < splinter_keys(*s).len(),
        r matches Some(key) ==> is_nth(splinter_keys(*s), idx as nat, key),
{
    s.select(idx)
}

/// `Splinter::insert`: adds the key, and says whether it was new.
#[verifier::external_body]
pub(crate) fn splinter_insert(s: &mut Splinter, key: u32) -> (added: bool)
    ensures
        splinter_keys(*final(s)) == splinter_keys(*old(s)).insert(key),
        added == !splinter_keys(*old(s)).contains(key),
{
    s.insert(key)
}

/// `Splinter::remove`: takes the key out, and says whether it was there.
#[verifier::external_body]
pub(crate) fn splinter_remove(s: &mut Splinter, key: u32) -> (removed: bool)
    ensures
        splinter_keys(*final(s)) == splinter_keys(*old(s)).remove(key),
        removed == splinter_keys(*old(s)).contains(key),
{
    s.remove(key)
}

/// `Splinter::optimize`: picks the storage of every partition anew and keeps the
/// keys. The bitmap is then laid out for the encoder, and serialises to the bytes
/// named for it.
#[verifier::external_body]
pub(crate) fn splinter_optimize(s: &mut Splinter)
    ensures
        splinter_keys(*final(s)) == splinter_keys(*old(s)),
        laid_out(*final(s)),
        splinter_encoding(*final(s)) == optimized_encoding(*old(s)),
{
    s.optimize()
}

/// `Splinter::cut`: returns the keys shared with `other` and leaves the rest behind.
#[verifier::external_body]
pub(crate) fn splinter_cut(s: &mut Splinter, other: &Splinter) -> (shared: Splinter)
    ensures
        splinter_keys(shared) == splinter_keys(*old(s)).intersect(splinter_keys(*other)),
        splinter_keys(*final(s)) == splinter_keys(*old(s)).difference(splinter_keys(*other)),
{
    s.cut(other)
}

/// `&Splinter & &Splinter`: the keys held by both.
#[verifier::external_body]
pub(crate) fn splinter_and(a: &Splinter, b: &Splinter) -> (out: Splinter)
    ensures
        splinter_keys(out) == splinter_keys(*a).intersect(splinter_keys(*b)),
{
    a & b
}

/// `&Splinter | &Splinter`: the keys held by either.
#[verifier::external_body]
pub(crate) fn splinter_or(a: &Splinter, b: &Splinter) -> (out: Splinter)
    ensures
        splinter_keys(out) == splinter_keys(*a).union(splinter_keys(*b)),
{
    a | b
}

/// `&Splinter ^ &Splinter`: the keys held by exactly one.
#[verifier::external_body]
pub(crate) fn splinter_xor(a: &Splinter, b: &Splinter) -> (out: Splinter)
    ensures
        splinter_keys(out) == symmetric_difference(splinter_keys(*a), splinter_keys(*b)),
{
    a ^ b
}

/// `&Splinter - &Splinter`: the keys of the first that the second lacks.
#[verifier::external_body]
pub(crate) fn splinter_sub(a: &Splinter, b: &Splinter) -> (out: Splinter)
    ensures
        splinter_keys(out) == splinter_keys(*a).difference(splinter_keys(*b)),
{
    a - b
}

/// `Splinter &= &Splinter`: keeps the keys that `b` holds too.
#[verifier::external_body]
pub(crate) fn splinter_and_assign(a: &mut Splinter, b: &Splinter)
    ensures
        splinter_keys(*final(a)) == splinter_keys(*old(a)).intersect(splinter_keys(*b)),
{
    *a &= b;
}

/// `Splinter |= &Splinter`: takes in the keys of `b`.
#[verifier::external_body]
pub(crate) fn splinter_or_assign(a: &mut Splinter, b: &Splinter)
    ensures
        splinter_keys(*final(a)) == splinter_keys(*old(a)).union(splinter_keys(*b)),
{
    *a |= b;
}

/// `Splinter ^= &Splinter`: keeps the keys held by exactly one of the two.
#[verifier::external_body]
pub(crate) fn splinter_xor_assign(a: &mut Splinter, b: &Splinter)
    ensures
        splinter_keys(*final(a)) == symmetric_difference(
            splinter_keys(*old(a)),
            splinter_keys(*b),
        ),
{
    *a ^= b;
}

/// `Splinter -= &Splinter`: drops the keys that `b` holds.
#[verifier::external_body]
pub(crate) fn splinter_sub_assign(a: &mut Splinter, b: &Splinter)
    ensures
        splinter_keys(*final(a)) == splinter_keys(*old(a)).difference(splinter_keys(*b)),
{
    *a -= b;
}

/// `Splinter::encoded_size`: the length of the serialised form, for a bitmap that
/// has one.
#[verifier::external_body]
pub(crate) fn splinter_encoded_size(s: &Splinter) -> (n: usize)
    ensures
        laid_out(*s) ==> n == splinter_encoding(*s).len(),
{
    s.encoded_size()
}

/// `Splinter::encode_to_splinter_ref`, unwrapped to its bytes: the serialised form
/// of a bitmap that `optimize` has laid out. `SplinterRef::from_bytes` takes it,
/// every partition in it has the structure that the encoder writes, and what is
/// read back from it are the keys of the bitmap.
#[verifier::external_body]
pub(crate) fn splinter_encode(s: &Splinter) -> (out: Vec<u8>)
    requires
        laid_out(*s),
    ensures
        out@ == splinter_encoding(*s),
        decode_error(out@) is None,
        well_formed(out@),
        encoded_keys(out@) == splinter_keys(*s),
{
    s.encode_to_splinter_ref().into_inner().to_vec()
}

/// `SplinterRef::from_bytes`: checks the buffer and, where it passes, wraps it. The
/// decoder's error comes back as the variant of the same name. Its first three
/// tests read the length and the two ends of the buffer, and what they find is the
/// error returned; the checksum and the outermost partition come after them.
#[verifier::external_body]
pub(crate) fn view_open(data: Vec<u8>) -> (r: Result<SplinterRef<Vec<u8>>, DecodeError>)
    ensures
        r is Ok <==> decode_error(data@) is None,
        r matches Ok(v) ==> view_bytes(v) == data@,
        r matches Err(e) ==> decode_error(data@) == Some(e),
        r is Ok ==> framing_error(data@) is None,
        r matches Err(e) ==> framing_error(data@) is None || framing_error(data@) == Some(e),
{
    SplinterRef::from_bytes(data).map_err(|e| match e {
        DecodeErr::Length => DecodeError::Length,
        DecodeErr::Validity => DecodeError::Validity,
        DecodeErr::Magic => DecodeError::Magic,
        DecodeErr::Checksum => DecodeError::Checksum,
        DecodeErr::SplinterV1 => DecodeError::SplinterV1,
    })
}

/// `SplinterRef::inner`: the buffer.
#[verifier::external_body]
pub(crate) fn view_buffer(v: &SplinterRef<Vec<u8>>) -> (out: &Vec<u8>)
    ensures
        out@ == view_bytes(*v),
{
    v.inner()
}

/// `SplinterRef::iter`, collected: every key in the buffer once, in ascending order.
#[verifier::external_body]
pub(crate) fn view_to_vec(v: &SplinterRef<Vec<u8>>) -> (out: Vec<u32>)
    requires
        well_formed(view_bytes(*v)),
    ensures
        ascending(out@),
        out@.to_set() == encoded_keys(view_bytes(*v)),
{
    v.iter().collect()
}

/// `SplinterRef::decode_to_splinter`: the owned bitmap of the keys in the buffer.
#[verifier::external_body]
pub(crate) fn view_decode(v: &SplinterRef<Vec<u8>>) -> (s: Splinter)
    requires
        well_formed(view_bytes(*v)),
    ensures
        splinter_keys(s) == encoded_keys(view_bytes(*v)),
{
    v.decode_to_splinter()
}

/// `SplinterRef::cardinality`: the number of keys in the buffer.
#[verifier::external_body]
pub(crate) fn view_cardinality(v: &SplinterRef<Vec<u8>>) -> (n: usize)
    requires
        well_formed(view_bytes(*v)),
    ensures
        n == encoded_keys(view_bytes(*v)).len(),
{
    v.cardinality()
}

/// `SplinterRef::contains`: whether the buffer holds the key.
#[verifier::external_body]
pub(crate) fn view_contains(v: &SplinterRef<Vec<u8>>, key: u32) -> (found: bool)
    requires
        well_formed(view_bytes(*v)),
    ensures
        found == encoded_keys(view_bytes(*v)).contains(key),
{
    v.contains(key)
}

/// `SplinterRef::rank`: the number of keys in the buffer that are at most `key`.
#[verifier::external_body]
pub(crate) fn view_rank(v: &SplinterRef<Vec<u8>>, key: u32) -> (n: usize)
    requires
        well_formed(view_bytes(*v)),
    ensures
        n == rank_of(encoded_keys(view_bytes(*v)), key),
{
    v.rank(key)
}

/// `SplinterRef::select`: the key in the buffer with exactly `idx` keys below it,
/// `None` where `idx` is not below the cardinality.
#[verifier::external_body]
pub(crate) fn view_select(v: &SplinterRef<Vec<u8>>, idx: usize) -> (r: Option<u32>)
    requires
        well_formed(view_bytes(*v)),
    ensures
        r is Some <==> idx < encoded_keys(view_bytes(*v)).len(),
        r matches Some(key) ==> is_nth(encoded_keys(view_bytes(*v)), idx as nat, key),
{
    v.select(idx)
}

/// `rayon`'s `par_iter().map(..).collect()` over the keys, with `contains_key` as the
/// function mapped: one answer per key, and the answers in the order of the keys.
/// `collect` into a `Vec` writes each item of an indexed parallel iterator at its own
/// index. The pool is `rayon`'s global one, started at the first call.
#[verifier::external_body]
pub(crate) fn par_contains(set: &SplinterWrapper, keys: &Vec<u32>) -> (found: Vec<bool>)
    ensures
        found@.len() == keys@.len(),
        forall|i: int| 0 <= i < keys@.len() ==> found@[i] == set@.contains(keys@[i]),
{
    keys.par_iter().map(|key| set.contains_key(*key)).collect()
}

} // verus!
