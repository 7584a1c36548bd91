//! What holds of the operations for every set: each law is stated over the sets that
//! the operations' contracts speak of, and proved.

use vstd::prelude::*;
use vstd::set_lib::lemma_set_intersect_union_lens;
use crate::model::{
    is_nth, lemma_keys_finite, lemma_nth_key, lemma_rank_split, nth_key, rank_of,
    symmetric_difference,
};
use crate::splinter::SplinterWrapper;

verus! {

/// Serialising a set and decoding the bytes gives a set of the same keys, and leaves
/// the keys of the first as they were: bytes that `to_bytes` wrote always decode.
pub fn round_trip(set: &mut SplinterWrapper) -> (back: SplinterWrapper)
    ensures
        final(set)@ == old(set)@,
        back@ == old(set)@,
{
    let bytes = set.to_bytes();
    match SplinterWrapper::from_bytes(bytes.as_slice()) {
        Ok(back) => back,
        Err(_) => vstd::pervasive::unreached(),
    }
}

/// Inserting a key a second time changes nothing.
pub proof fn law_insert_idempotent(keys: Set<u32>, key: u32)
    ensures
        keys.insert(key).insert(key) == keys.insert(key),
{
    assert(keys.insert(key).insert(key) =~= keys.insert(key));
}

/// Removing a key that is not in the set changes nothing.
pub proof fn law_remove_absent(keys: Set<u32>, key: u32)
    requires
        !keys.contains(key),
    ensures
        keys.remove(key) == keys,
{
    assert(keys.remove(key) =~= keys);
}

/// Intersection does not depend on the order of its operands.
pub proof fn law_and_commutes(a: Set<u32>, b: Set<u32>)
    ensures
        a.intersect(b) == b.intersect(a),
{
    assert(a.intersect(b) =~= b.intersect(a));
}

/// Union does not depend on the order of its operands.
pub proof fn law_or_commutes(a: Set<u32>, b: Set<u32>)
    ensures
        a.union(b) == b.union(a),
{
    assert(a.union(b) =~= b.union(a));
}

/// Intersection does not depend on how its operands are grouped.
pub proof fn law_and_associates(a: Set<u32>, b: Set<u32>, c: Set<u32>)
    ensures
        a.intersect(b).intersect(c) == a.intersect(b.intersect(c)),
{
    assert(a.intersect(b).intersect(c) =~= a.intersect(b.intersect(c)));
}

/// A set's symmetric difference with what it shares with another is what the other
/// lacks of it.
pub proof fn law_xor_with_shared_is_difference(a: Set<u32>, b: Set<u32>)
    ensures
        symmetric_difference(a, a.intersect(b)) == a.difference(b),
{
    assert(symmetric_difference(a, a.intersect(b)) =~= a.difference(b));
}

/// The sizes of intersection and union add up to the sizes of the two sets.
pub proof fn law_inclusion_exclusion(a: Set<u32>, b: Set<u32>)
    ensures
        a.intersect(b).len() + a.union(b).len() == a.len() + b.len(),
{
    lemma_keys_finite(a);
    lemma_keys_finite(b);
    lemma_set_intersect_union_lens(a, b);
}

/// The key at a position below the cardinality has a rank one above that position.
pub proof fn law_rank_of_select(keys: Set<u32>, idx: nat)
    requires
        idx < keys.len(),
    ensures
        nth_key(keys, idx) matches Some(key) && rank_of(keys, key) == idx + 1,
{
    lemma_nth_key(keys, idx);
    let key = nth_key(keys, idx)->0;
    lemma_rank_split(keys, key);
}

/// A member stands at the position one below its rank.
pub proof fn law_select_of_rank(keys: Set<u32>, key: u32)
    requires
        keys.contains(key),
    ensures
        rank_of(keys, key) >= 1,
        nth_key(keys, (rank_of(keys, key) - 1) as nat) == Some(key),
{
    lemma_rank_split(keys, key);
    let idx = (rank_of(keys, key) - 1) as nat;
    assert(is_nth(keys, idx, key));
    lemma_nth_key(keys, idx);
}

/// The two parts into which `cut` splits a set share no key, and together they are
/// the set.
pub proof fn law_cut_parts(a: Set<u32>, b: Set<u32>)
    ensures
        a.intersect(b).intersect(a.difference(b)) == Set::<u32>::empty(),
        a.intersect(b).union(a.difference(b)) == a,
{
    assert(a.intersect(b).intersect(a.difference(b)) =~= Set::<u32>::empty());
    assert(a.intersect(b).union(a.difference(b)) =~= a);
}

} // verus!
