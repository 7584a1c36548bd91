//! The mathematical model: a key set is a `Set<u32>`, and rank, position and the
//! set operations are defined on it directly.

use vstd::prelude::*;
use vstd::relations::injective_on;
use vstd::set_lib::*;

verus! {

/// The members of `keys` that are at most `key`.
pub open spec fn keys_up_to(keys: Set<u32>, key: u32) -> Set<u32> {
    Set::new(|k: u32| keys.contains(k) && k <= key)
}

/// The members of `keys` that are strictly smaller than `key`.
pub open spec fn keys_below(keys: Set<u32>, key: u32) -> Set<u32> {
    Set::new(|k: u32| keys.contains(k) && k < key)
}

/// The number of members of `keys` that are at most `key`.
pub open spec fn rank_of(keys: Set<u32>, key: u32) -> nat {
    keys_up_to(keys, key).len()
}

/// `key` is a member of `keys`, and exactly `idx` members are smaller: it stands at
/// position `idx` when the members are counted upwards from zero.
pub open spec fn is_nth(keys: Set<u32>, idx: nat, key: u32) -> bool {
    keys.contains(key) && keys_below(keys, key).len() == idx
}

/// The member at position `idx`, if there is one.
pub open spec fn nth_key(keys: Set<u32>, idx: nat) -> Option<u32> {
    if exists|k: u32| is_nth(keys, idx, k) {
        Some(choose|k: u32| is_nth(keys, idx, k))
    } else {
        None
    }
}

/// The keys that are in exactly one of the two sets.
pub open spec fn symmetric_difference(a: Set<u32>, b: Set<u32>) -> Set<u32> {
    a.difference(b).union(b.difference(a))
}

/// Each element is strictly larger than the one before it.
pub open spec fn ascending(s: Seq<u32>) -> bool {
    forall|i: int, j: int| 0 <= i < j < s.len() ==> s[i] < s[j]
}

/// For each key asked for, in order, whether `keys` holds it.
pub open spec fn membership_of(keys: Set<u32>, asked: Seq<u32>) -> Seq<bool> {
    Seq::new(asked.len(), |i: int| keys.contains(asked[i]))
}

/// `keys` holds every element of `wanted`.
pub open spec fn all_present(keys: Set<u32>, wanted: Seq<u32>) -> bool {
    forall|i: int| 0 <= i < wanted.len() ==> keys.contains(#[trigger] wanted[i])
}

/// The element at index `i` is the first of `wanted` that `keys` lacks.
pub open spec fn first_missing_at(keys: Set<u32>, wanted: Seq<u32>, i: int) -> bool {
    &&& 0 <= i < wanted.len()
    &&& !keys.contains(wanted[i])
    &&& all_present(keys, wanted.take(i))
}

/// Every set of 32-bit keys is finite.
pub proof fn lemma_keys_finite(keys: Set<u32>)
    ensures
        keys.finite(),
{
    broadcast use full_set_properties;

    assert(Set::<u32>::full().finite());
    assert(keys.subset_of(Set::<u32>::full()));
    lemma_set_subset_finite(Set::<u32>::full(), keys);
}

/// A key counts towards its own rank exactly when it is a member.
pub proof fn lemma_rank_split(keys: Set<u32>, key: u32)
    ensures
        rank_of(keys, key) == keys_below(keys, key).len() + (if keys.contains(key) {
            1nat
        } else {
            0nat
        }),
{
    lemma_keys_finite(keys_below(keys, key));
    if keys.contains(key) {
        assert(keys_up_to(keys, key) =~= keys_below(keys, key).insert(key));
    } else {
        assert(keys_up_to(keys, key) =~= keys_below(keys, key));
    }
}

/// A member has fewer members below it than any larger key has.
pub proof fn lemma_below_grows(keys: Set<u32>, a: u32, b: u32)
    requires
        keys.contains(a),
        a < b,
    ensures
        keys_below(keys, a).len() < keys_below(keys, b).len(),
{
    lemma_keys_finite(keys_below(keys, a));
    lemma_keys_finite(keys_below(keys, b));
    let grown = keys_below(keys, a).insert(a);
    assert(grown.subset_of(keys_below(keys, b)));
    lemma_len_subset(grown, keys_below(keys, b));
}

/// Fewer members lie below a member than the set has.
pub proof fn lemma_below_bound(keys: Set<u32>, key: u32)
    requires
        keys.contains(key),
    ensures
        keys_below(keys, key).len() < keys.len(),
{
    lemma_keys_finite(keys);
    lemma_keys_finite(keys_below(keys, key));
    let grown = keys_below(keys, key).insert(key);
    assert(grown.subset_of(keys));
    lemma_len_subset(grown, keys);
}

/// No two members stand at the same position.
pub proof fn lemma_nth_unique(keys: Set<u32>, idx: nat, a: u32, b: u32)
    requires
        is_nth(keys, idx, a),
        is_nth(keys, idx, b),
    ensures
        a == b,
{
    if a < b {
        lemma_below_grows(keys, a, b);
    } else if b < a {
        lemma_below_grows(keys, b, a);
    }
}

/// Every position below the cardinality is taken by a member.
pub proof fn lemma_nth_exists(keys: Set<u32>, idx: nat)
    requires
        idx < keys.len(),
    ensures
        exists|k: u32| is_nth(keys, idx, k),
{
    lemma_keys_finite(keys);
    let position = |k: u32| keys_below(keys, k).len() as int;
    assert forall|a: u32, b: u32|
        keys.contains(a) && keys.contains(b) && #[trigger] position(a) == #[trigger] position(
            b,
        ) implies a == b by {
        lemma_nth_unique(keys, keys_below(keys, a).len(), a, b);
    }
    assert(injective_on(position, keys));
    let taken = keys.map(position);
    lemma_map_size(keys, taken, position);
    let all = set_int_range(0, keys.len() as int);
    lemma_int_range(0, keys.len() as int);
    assert forall|p: int| taken.contains(p) implies all.contains(p) by {
        let k = choose|k: u32| keys.contains(k) && p == position(k);
        lemma_below_bound(keys, k);
    }
    assert(taken.subset_of(all));
    lemma_subset_equality(taken, all);
    assert(all.contains(idx as int));
    assert(taken.contains(idx as int));
    let k = choose|k: u32| keys.contains(k) && idx as int == position(k);
    assert(is_nth(keys, idx, k));
}

/// `nth_key` is defined on the positions below the cardinality and nowhere else, and
/// it names the one member that stands there.
pub proof fn lemma_nth_key(keys: Set<u32>, idx: nat)
    ensures
        nth_key(keys, idx) is Some <==> idx < keys.len(),
        forall|k: u32| nth_key(keys, idx) == Some(k) <==> is_nth(keys, idx, k),
{
    if idx < keys.len() {
        lemma_nth_exists(keys, idx);
    }
    assert forall|k: u32| is_nth(keys, idx, k) implies nth_key(keys, idx) == Some(k) && idx
        < keys.len() by {
        lemma_below_bound(keys, k);
        let chosen = choose|c: u32| is_nth(keys, idx, c);
        lemma_nth_unique(keys, idx, chosen, k);
    }
}

/// In an ascending sequence each element stands at its own index among the
/// sequence's elements.
pub proof fn lemma_ascending_nth(s: Seq<u32>, i: int)
    requires
        ascending(s),
        0 <= i < s.len(),
    ensures
        is_nth(s.to_set(), i as nat, s[i]),
{
    let head = s.take(i);
    assert(head.no_duplicates());
    head.unique_seq_to_set();
    assert forall|k: u32| keys_below(s.to_set(), s[i]).contains(k) implies head.to_set().contains(
        k,
    ) by {
        let j = choose|j: int| 0 <= j < s.len() && s[j] == k;
        if j >= i {
            assert(j == i || s[i] < s[j]);
        }
        assert(head[j] == k);
    }
    assert forall|k: u32| head.to_set().contains(k) implies keys_below(s.to_set(), s[i]).contains(
        k,
    ) by {
        let j = choose|j: int| 0 <= j < head.len() && head[j] == k;
        assert(s[j] == k);
    }
    assert(keys_below(s.to_set(), s[i]) =~= head.to_set());
    assert(s.to_set().contains(s[i]));
}

/// One more element of a sequence adds that element to the set of those taken so far.
pub proof fn lemma_take_next(s: Seq<u32>, i: int)
    requires
        0 <= i < s.len(),
    ensures
        s.take(i + 1).to_set() == s.take(i).to_set().insert(s[i]),
{
    let longer = s.take(i + 1);
    let shorter = s.take(i);
    assert forall|k: u32| longer.to_set().contains(k) implies shorter.to_set().insert(
        s[i],
    ).contains(k) by {
        let j = choose|j: int| 0 <= j < longer.len() && longer[j] == k;
        if j < i {
            assert(shorter[j] == k);
        }
    }
    assert forall|k: u32| shorter.to_set().insert(s[i]).contains(k) implies longer.to_set().contains(
        k,
    ) by {
        if k == s[i] {
            assert(longer[i] == k);
        } else {
            let j = choose|j: int| 0 <= j < shorter.len() && shorter[j] == k;
            assert(longer[j] == k);
        }
    }
    assert(longer.to_set() =~= shorter.to_set().insert(s[i]));
}

/// An ascending sequence is as long as the set of its elements is large.
pub proof fn lemma_ascending_len(s: Seq<u32>)
    requires
        ascending(s),
    ensures
        s.len() == s.to_set().len(),
{
    assert(s.no_duplicates());
    s.unique_seq_to_set();
}

} // verus!
