//! The editable key set.

use vstd::prelude::*;
use splinter_rs::Splinter;
use crate::model::{
    all_present, ascending, first_missing_at, lemma_ascending_len, lemma_ascending_nth,
    lemma_nth_key, lemma_take_next, membership_of, nth_key, rank_of, symmetric_difference,
};
use crate::format::{framing_error, well_formed};
use crate::frozen::{rejection, FrozenSplinter};
use crate::store::{
    decode_error, encoded_keys, laid_out, par_contains, splinter_and, splinter_and_assign,
    splinter_cardinality, splinter_clone, splinter_contains, splinter_cut, splinter_encode,
    splinter_encoded_size, splinter_encoding, splinter_from_keys, splinter_insert, splinter_keys,
    splinter_optimize, splinter_or, splinter_or_assign, splinter_rank, splinter_remove,
    splinter_select, splinter_sub, splinter_sub_assign, splinter_to_vec, splinter_xor,
    splinter_xor_assign,
};
use crate::types::{BoolOrVec, DecodeError, KeyArg, KeyNotFound};

verus! {

/// An ordered set of 32-bit keys, held compressed and open to edits.
///
/// Its view is the set of its keys; every contract below is stated over that set.
pub struct SplinterWrapper {
    inner: Splinter,
}

impl View for SplinterWrapper {
    type V = Set<u32>;

    closed spec fn view(&self) -> Set<u32> {
        splinter_keys(self.inner)
    }
}

impl SplinterWrapper {
    /// Wraps a bitmap as it comes from the decoder.
    pub(crate) fn from_inner(inner: Splinter) -> (set: Self)
        ensures
            set@ == splinter_keys(inner),
    {
        SplinterWrapper { inner }
    }

    /// The empty set.
    pub fn new() -> (set: Self)
        ensures
            set@ == Set::<u32>::empty(),
    {
        let set = SplinterWrapper { inner: splinter_from_keys(Vec::new()) };
        assert(Seq::<u32>::empty().to_set() =~= Set::<u32>::empty());
        set
    }

    /// The set of the given keys, which may come in any order and with repeats.
    pub fn from_list(data: Vec<u32>) -> (set: Self)
        ensures
            set@ == data@.to_set(),
    {
        SplinterWrapper { inner: splinter_from_keys(data) }
    }

    /// The keys in ascending order, each once: the key at index `i` of the list is the
    /// one that `select` gives for `i`.
    pub fn to_list(&self) -> (out: Vec<u32>)
        ensures
            ascending(out@),
            out@.to_set() == self@,
            out@.len() == self@.len(),
            forall|i: int|
                0 <= i < out@.len() ==> nth_key(self@, i as nat) == Some(#[trigger] out@[i]),
    {
        let out = splinter_to_vec(&self.inner);
        proof {
            lemma_ascending_len(out@);
            assert forall|i: int| 0 <= i < out@.len() implies nth_key(self@, i as nat) == Some(
                #[trigger] out@[i],
            ) by {
                lemma_ascending_nth(out@, i);
                lemma_nth_key(self@, i as nat);
            }
        }
        out
    }

    /// The number of keys in the set.
    pub fn len(&self) -> (n: usize)
        ensures
            n == self@.len(),
    {
        splinter_cardinality(&self.inner)
    }

    /// Whether the set holds the key.
    pub fn contains_key(&self, key: u32) -> (found: bool)
        ensures
            found == self@.contains(key),
    {
        splinter_contains(&self.inner, key)
    }

    /// For each key of the batch, in order, whether the set holds it.
    pub fn contains_many(&self, keys: &Vec<u32>) -> (found: Vec<bool>)
        ensures
            found@ == membership_of(self@, keys@),
    {
        let mut found: Vec<bool> = Vec::new();
        let mut i: usize = 0;
        while i < keys.len()
            invariant
                i <= keys.len(),
                found@ == membership_of(self@, keys@.take(i as int)),
            decreases keys.len() - i,
        {
            found.push(splinter_contains(&self.inner, keys[i]));
            assert(found@ =~= membership_of(self@, keys@.take(i + 1)));
            i += 1;
        }
        assert(keys@.take(i as int) == keys@);
        found
    }

    /// Membership of one key or of a batch: one flag for one key, a flag per key and in
    /// the batch's order for a batch.
    pub fn contains(&self, value: &KeyArg) -> (r: BoolOrVec)
        ensures
            match *value {
                KeyArg::One(key) => r == BoolOrVec::Bool(self@.contains(key)),
                KeyArg::Many(keys) => r matches BoolOrVec::Vec(found) && found@ == membership_of(
                    self@,
                    keys@,
                ),
            },
    {
        match value {
            KeyArg::One(key) => BoolOrVec::Bool(self.contains_key(*key)),
            KeyArg::Many(keys) => BoolOrVec::Vec(self.contains_many(keys)),
        }
    }

    /// What `contains_many` answers, with the lookups spread over a pool of worker
    /// threads. The answers stand in the order of the keys, whichever lookup ends
    /// first.
    pub fn contains_many_parallel(&self, values: &Vec<u32>) -> (found: Vec<bool>)
        ensures
            found@ == membership_of(self@, values@),
    {
        let found = par_contains(self, values);
        assert(found@ =~= membership_of(self@, values@));
        found
    }

    /// The number of keys in the set that are at most `key`.
    pub fn rank(&self, key: u32) -> (n: usize)
        ensures
            n == rank_of(self@, key),
    {
        splinter_rank(&self.inner, key)
    }

    /// The key at position `idx` of the ascending order, counted from zero; `None`
    /// where `idx` is not below the cardinality.
    pub fn select(&self, idx: usize) -> (r: Option<u32>)
        ensures
            r == nth_key(self@, idx as nat),
            r is Some <==> idx < self@.len(),
    {
        let r = splinter_select(&self.inner, idx);
        proof {
            lemma_nth_key(self@, idx as nat);
        }
        r
    }

    /// Adds one key, and says whether it was new. A key that is there already leaves
    /// the set untouched; after a new one the set is laid out anew.
    pub fn insert(&mut self, key: u32) -> (added: bool)
        ensures
            final(self)@ == old(self)@.insert(key),
            added == !old(self)@.contains(key),
            added ==> final(self).is_optimized(),
            !added ==> *final(self) == *old(self),
    {
        if splinter_contains(&self.inner, key) {
            assert(self@.insert(key) =~= self@);
            return false;
        }
        let added = splinter_insert(&mut self.inner, key);
        self.optimize();
        added
    }

    /// Adds every key of the batch, then lays the set out anew.
    pub fn insert_many(&mut self, keys: &Vec<u32>)
        ensures
            final(self)@ == old(self)@.union(keys@.to_set()),
            final(self).is_optimized(),
    {
        let mut i: usize = 0;
        assert(keys@.take(0).to_set() =~= Set::<u32>::empty());
        while i < keys.len()
            invariant
                i <= keys.len(),
                self@ == old(self)@.union(keys@.take(i as int).to_set()),
            decreases keys.len() - i,
        {
            let _ = splinter_insert(&mut self.inner, keys[i]);
            proof {
                lemma_take_next(keys@, i as int);
            }
            i += 1;
        }
        assert(keys@.take(i as int) == keys@);
        self.optimize();
    }

    /// Adds one key or a batch: `insert` for one key, `insert_many` for a batch. Where
    /// the set has grown it is laid out anew.
    pub fn add(&mut self, values: &KeyArg)
        ensures
            final(self)@ == old(self)@.union(values.keys()),
            final(self)@ != old(self)@ ==> final(self).is_optimized(),
    {
        match values {
            KeyArg::One(key) => {
                let added = self.insert(*key);
                assert(old(self)@.insert(*key) =~= old(self)@.union(set![*key]));
                assert(!added ==> old(self)@.insert(*key) =~= old(self)@);
            },
            KeyArg::Many(keys) => {
                self.insert_many(keys);
            },
        }
    }

    /// Removes one key. Where the set does not hold it, the set stays as it is and the
    /// key comes back in the error.
    pub fn remove_key(&mut self, key: u32) -> (r: Result<(), KeyNotFound>)
        ensures
            r is Ok <==> old(self)@.contains(key),
            r is Ok ==> final(self)@ == old(self)@.remove(key),
            r is Ok ==> final(self).is_optimized(),
            r matches Err(e) ==> e.key == key && *final(self) == *old(self),
    {
        if !splinter_contains(&self.inner, key) {
            return Err(KeyNotFound { key });
        }
        let _ = splinter_remove(&mut self.inner, key);
        self.optimize();
        Ok(())
    }

    /// Removes a batch of keys, all or none. Every key is looked up before any is
    /// taken out: where one is missing, the set stays as it is and the first missing
    /// key, in the batch's order, comes back in the error.
    pub fn remove_many(&mut self, keys: &Vec<u32>) -> (r: Result<(), KeyNotFound>)
        ensures
            r is Ok <==> all_present(old(self)@, keys@),
            r is Ok ==> final(self)@ == old(self)@.difference(keys@.to_set()),
            r is Ok ==> final(self).is_optimized(),
            r matches Err(e) ==> *final(self) == *old(self) && exists|i: int|
                first_missing_at(old(self)@, keys@, i) && keys@[i] == e.key,
    {
        let mut i: usize = 0;
        while i < keys.len()
            invariant
                i <= keys.len(),
                *self == *old(self),
                all_present(self@, keys@.take(i as int)),
            decreases keys.len() - i,
        {
            if !splinter_contains(&self.inner, keys[i]) {
                assert(first_missing_at(old(self)@, keys@, i as int));
                return Err(KeyNotFound { key: keys[i] });
            }
            assert forall|j: int| 0 <= j < i + 1 implies self@.contains(
                #[trigger] keys@.take(i + 1)[j],
            ) by {
                if j < i {
                    assert(keys@.take(i as int)[j] == keys@[j]);
                }
            }
            i += 1;
        }
        assert(keys@.take(i as int) == keys@);
        self.discard_many(keys);
        Ok(())
    }

    /// Removes one key or a batch, and fails on a key that is not there: `remove_key`
    /// for one key, `remove_many` for a batch.
    pub fn remove(&mut self, value: &KeyArg) -> (r: Result<(), KeyNotFound>)
        ensures
            r is Ok <==> value.keys().subset_of(old(self)@),
            r is Ok ==> final(self)@ == old(self)@.difference(value.keys()),
            r is Ok ==> final(self).is_optimized(),
            r matches Err(e) ==> *final(self) == *old(self) && value.keys().contains(e.key)
                && !old(self)@.contains(e.key),
            r matches Err(e) ==> (value matches KeyArg::Many(keys) ==> exists|i: int|
                first_missing_at(old(self)@, keys@, i) && keys@[i] == e.key),
    {
        match value {
            KeyArg::One(key) => {
                let r = self.remove_key(*key);
                assert(old(self)@.remove(*key) =~= old(self)@.difference(set![*key]));
                r
            },
            KeyArg::Many(keys) => {
                let r = self.remove_many(keys);
                assert(all_present(old(self)@, keys@) <==> keys@.to_set().subset_of(old(self)@))
                    by {
                    if all_present(old(self)@, keys@) {
                        assert forall|k: u32| keys@.to_set().contains(k) implies old(
                            self,
                        )@.contains(k) by {
                            let j = choose|j: int| 0 <= j < keys@.len() && keys@[j] == k;
                            assert(old(self)@.contains(keys@[j]));
                        }
                    }
                    if keys@.to_set().subset_of(old(self)@) {
                        assert forall|j: int| 0 <= j < keys@.len() implies old(self)@.contains(
                            #[trigger] keys@[j],
                        ) by {
                            assert(keys@.to_set().contains(keys@[j]));
                        }
                    }
                }
                r
            },
        }
    }

    /// Takes one key out if it is there, says whether it was, and lays the set out
    /// anew.
    pub fn discard_key(&mut self, key: u32) -> (removed: bool)
        ensures
            final(self)@ == old(self)@.remove(key),
            removed == old(self)@.contains(key),
            final(self).is_optimized(),
    {
        let removed = splinter_remove(&mut self.inner, key);
        self.optimize();
        removed
    }

    /// Takes out every key of the batch that is there, then lays the set out anew.
    /// Keys that are not there are passed over.
    pub fn discard_many(&mut self, keys: &Vec<u32>)
        ensures
            final(self)@ == old(self)@.difference(keys@.to_set()),
            final(self).is_optimized(),
    {
        let mut i: usize = 0;
        while i < keys.len()
            invariant
                i <= keys.len(),
                self@ == old(self)@.difference(keys@.take(i as int).to_set()),
            decreases keys.len() - i,
        {
            let _ = splinter_remove(&mut self.inner, keys[i]);
            proof {
                lemma_take_next(keys@, i as int);
            }
            i += 1;
        }
        assert(keys@.take(i as int) == keys@);
        self.optimize();
    }

    /// Takes out one key or a batch and never fails: `discard_key` for one key,
    /// `discard_many` for a batch.
    pub fn discard(&mut self, value: &KeyArg)
        ensures
            final(self)@ == old(self)@.difference(value.keys()),
            final(self).is_optimized(),
    {
        match value {
            KeyArg::One(key) => {
                let _ = self.discard_key(*key);
                assert(old(self)@.remove(*key) =~= old(self)@.difference(set![*key]));
            },
            KeyArg::Many(keys) => {
                self.discard_many(keys);
            },
        }
    }

    /// Splits the set along `other`: the keys that `other` holds too leave the set and
    /// are returned, the rest stay. The two parts share no key, and both are laid out
    /// anew.
    pub fn cut(&mut self, other: &SplinterWrapper) -> (removed: SplinterWrapper)
        ensures
            removed@ == old(self)@.intersect(other@),
            final(self)@ == old(self)@.difference(other@),
            removed@.disjoint(final(self)@),
            removed.is_optimized(),
            final(self).is_optimized(),
    {
        let mut removed = SplinterWrapper { inner: splinter_cut(&mut self.inner, &other.inner) };
        removed.optimize();
        self.optimize();
        removed
    }

    /// Picks the storage of every part of the set anew, each time the one reckoned
    /// smallest for the keys as they stand. The keys stay the same; the layout, and with
    /// it the serialised form, becomes the optimised one.
    pub fn optimize(&mut self)
        ensures
            final(self)@ == old(self)@,
            final(self).encoding() == old(self).optimized_encoding(),
            final(self).is_optimized(),
    {
        splinter_optimize(&mut self.inner);
        assert(old(self).optimized_encoding() == self.encoding() && old(self)@ == self@);
    }

    /// The keys that both sets hold, as a new set in its optimised layout.
    pub fn and(&self, rhs: &SplinterWrapper) -> (out: SplinterWrapper)
        ensures
            out@ == self@.intersect(rhs@),
            out.is_optimized(),
    {
        let mut out = SplinterWrapper { inner: splinter_and(&self.inner, &rhs.inner) };
        out.optimize();
        out
    }

    /// The keys that either set holds, as a new set in its optimised layout.
    pub fn or(&self, rhs: &SplinterWrapper) -> (out: SplinterWrapper)
        ensures
            out@ == self@.union(rhs@),
            out.is_optimized(),
    {
        let mut out = SplinterWrapper { inner: splinter_or(&self.inner, &rhs.inner) };
        out.optimize();
        out
    }

    /// The keys that exactly one of the two sets holds, as a new set in its optimised layout.
    pub fn xor(&self, rhs: &SplinterWrapper) -> (out: SplinterWrapper)
        ensures
            out@ == symmetric_difference(self@, rhs@),
            out.is_optimized(),
    {
        let mut out = SplinterWrapper { inner: splinter_xor(&self.inner, &rhs.inner) };
        out.optimize();
        out
    }

    /// The keys of this set that `rhs` lacks, as a new set in its optimised layout.
    pub fn difference(&self, rhs: &SplinterWrapper) -> (out: SplinterWrapper)
        ensures
            out@ == self@.difference(rhs@),
            out.is_optimized(),
    {
        let mut out = SplinterWrapper { inner: splinter_sub(&self.inner, &rhs.inner) };
        out.optimize();
        out
    }

    /// Keeps the keys that `rhs` holds too.
    pub fn and_assign(&mut self, rhs: &SplinterWrapper)
        ensures
            final(self)@ == old(self)@.intersect(rhs@),
            final(self).is_optimized(),
    {
        splinter_and_assign(&mut self.inner, &rhs.inner);
        self.optimize();
    }

    /// Takes in the keys of `rhs`.
    pub fn or_assign(&mut self, rhs: &SplinterWrapper)
        ensures
            final(self)@ == old(self)@.union(rhs@),
            final(self).is_optimized(),
    {
        splinter_or_assign(&mut self.inner, &rhs.inner);
        self.optimize();
    }

    /// Keeps the keys that exactly one of the two sets holds.
    pub fn xor_assign(&mut self, rhs: &SplinterWrapper)
        ensures
            final(self)@ == symmetric_difference(old(self)@, rhs@),
            final(self).is_optimized(),
    {
        splinter_xor_assign(&mut self.inner, &rhs.inner);
        self.optimize();
    }

    /// Drops the keys that `rhs` holds.
    pub fn difference_assign(&mut self, rhs: &SplinterWrapper)
        ensures
            final(self)@ == old(self)@.difference(rhs@),
            final(self).is_optimized(),
    {
        splinter_sub_assign(&mut self.inner, &rhs.inner);
        self.optimize();
    }

    /// The serialised form of the set as it is laid out now.
    pub closed spec fn encoding(&self) -> Seq<u8> {
        splinter_encoding(self.inner)
    }

    /// The serialised form of the set once `optimize` has laid it out.
    pub closed spec fn optimized_encoding(&self) -> Seq<u8> {
        crate::store::optimized_encoding(self.inner)
    }

    /// The set is laid out so that it has a serialised form. `optimize` leaves it so;
    /// a set that was decoded and not optimised since may be laid out otherwise.
    pub closed spec fn encodes(&self) -> bool {
        laid_out(self.inner)
    }

    /// The set is laid out as `optimize` leaves a set of its keys.
    pub open spec fn is_optimized(&self) -> bool {
        &&& self.encodes()
        &&& exists|before: SplinterWrapper|
            #[trigger] before.optimized_encoding() == self.encoding() && before@ == self@
    }

    /// The length of the serialised form of the set as it is laid out now, where it
    /// has one.
    pub fn encoded_size(&self) -> (n: usize)
        ensures
            self.encodes() ==> n == self.encoding().len(),
    {
        splinter_encoded_size(&self.inner)
    }

    /// Serialises the set, after laying it out anew. The keys stay the same, and the
    /// bytes decode to them.
    pub fn to_bytes(&mut self) -> (out: Vec<u8>)
        ensures
            final(self)@ == old(self)@,
            final(self).is_optimized(),
            out@ == old(self).optimized_encoding(),
            out@ == final(self).encoding(),
            decode_error(out@) is None,
            well_formed(out@),
            rejection(out@) is None,
            encoded_keys(out@) == old(self)@,
    {
        self.optimize();
        let out = splinter_encode(&self.inner);
        assert(splinter_encoding(self.inner) == out@);
        out
    }

    /// Decodes a serialised set into an editable one. Any buffer may be handed in: the
    /// decoder checks its length, magic and checksum, then the structure of every
    /// partition is walked, and a buffer that fails either is turned down with the
    /// reason. What the length and the two ends of the buffer call for is the error
    /// returned.
    pub fn from_bytes(data: &[u8]) -> (r: Result<SplinterWrapper, DecodeError>)
        ensures
            r is Ok <==> rejection(data@) is None,
            r matches Ok(set) ==> set@ == encoded_keys(data@),
            r matches Err(e) ==> rejection(data@) == Some(e),
            r is Ok ==> framing_error(data@) is None,
            r matches Err(e) ==> framing_error(data@) is None || framing_error(data@) == Some(e),
    {
        match FrozenSplinter::from_bytes(vstd::slice::slice_to_vec(data)) {
            Ok(frozen) => Ok(frozen.thaw()),
            Err(e) => Err(e),
        }
    }

    /// Freezes the set: its serialised form, ready to be read in place. The frozen
    /// set holds the same keys.
    pub fn freeze(self) -> (frozen: FrozenSplinter)
        ensures
            frozen@ == self@,
    {
        let mut set = self;
        let bytes = set.to_bytes();
        match FrozenSplinter::from_bytes(bytes) {
            Ok(frozen) => frozen,
            Err(_) => vstd::pervasive::unreached(),
        }
    }
}

impl Clone for SplinterWrapper {
    /// An independent set of the same keys.
    fn clone(&self) -> (copy: Self)
        ensures
            copy@ == self@,
    {
        SplinterWrapper { inner: splinter_clone(&self.inner) }
    }
}

} // verus!
