//! The filter itself: construction, insertion, queries and clearing.

use crate::hashing::{fresh_seed, seeded_hash};
use crate::model::{
    all_probed_set, fresh, hashed_under, index_at, lemma_cleared_holds_nothing,
    lemma_empty_contains_nothing, lemma_empty_means_all_clear, lemma_index_in_range,
    lemma_inserted_contains, lemma_inserted_not_empty, lemma_set_probed_step, set_probed,
    BloomView,
};
use crate::store::{cells, Bits, MAX_BITS};
use std::hash::Hash;
use vstd::prelude::*;

verus! {

/// Why a filter could not be built.
#[derive(Debug, Clone, Copy, PartialEq, Eq)]
pub enum ConfigError {
    /// Fewer than two hash rounds were asked for.
    TooFewHashFunctions,
    /// A store of no bits was asked for.
    ZeroBits,
    /// More bits were asked for than one store can hold.
    TooManyBits,
}

/// What construction with `k` rounds and `m` bits comes to: the first
/// complaint there is, or none.
pub open spec fn check_config(k: u64, m: u64) -> Result<(), ConfigError> {
    if k < 2 {
        Err(ConfigError::TooFewHashFunctions)
    } else if m == 0 {
        Err(ConfigError::ZeroBits)
    } else if m > MAX_BITS {
        Err(ConfigError::TooManyBits)
    } else {
        Ok(())
    }
}

/// A Bloom filter over a fixed number of bits. Elements go in and are asked
/// for; none can be taken out again, short of clearing the whole filter.
pub struct Bloom {
    /// The bit store, `m` cells long.
    data: Bits,
    /// The number of hash rounds per operation.
    k: u64,
    /// The number of bits in the store.
    m: u64,
    /// The seed of the first base hash.
    seed1: u64,
    /// The seed of the second base hash.
    seed2: u64,
}

impl View for Bloom {
    type V = BloomView;

    closed spec fn view(&self) -> BloomView {
        BloomView {
            bits: cells(self.data),
            rounds: self.k as nat,
            seeds: (self.seed1, self.seed2),
        }
    }
}

impl Bloom {
    /// What holds of every filter: at least two rounds, at least one bit, and
    /// a store of exactly `m` cells.
    #[verifier::type_invariant]
    spec fn well_formed(self) -> bool {
        &&& self.k >= 2
        &&& 0 < self.m <= MAX_BITS
        &&& cells(self.data).len() == self.m
    }

    /// Builds an empty filter of `m` bits and `k` hash rounds that derives
    /// its base hashes with the two seeds given. It is refused when `k` is
    /// less than 2, when `m` is 0, or when `m` is more than a store holds.
    pub fn with_seeds(k: u64, m: u64, seed1: u64, seed2: u64) -> (built: Result<Bloom, ConfigError>)
        ensures
            match built {
                Ok(filter) => {
                    &&& check_config(k, m) is Ok
                    &&& filter@ == fresh(k, m, (seed1, seed2))
                    &&& filter@.valid()
                    &&& filter@.is_empty()
                },
                Err(e) => check_config(k, m) == Err::<(), ConfigError>(e),
            },
    {
        proof {
            lemma_empty_means_all_clear(fresh(k, m, (seed1, seed2)));
        }
        if k < 2 {
            return Err(ConfigError::TooFewHashFunctions);
        }
        if m == 0 {
            return Err(ConfigError::ZeroBits);
        }
        if m > MAX_BITS as u64 {
            return Err(ConfigError::TooManyBits);
        }
        Ok(Bloom { data: Bits::zeroed(m as usize), k, m, seed1, seed2 })
    }

    /// Builds an empty filter of `m` bits and `k` hash rounds, with two
    /// seeds drawn at random. It is refused when `k` is less than 2, when `m`
    /// is 0, or when `m` is more than a store holds.
    pub fn with_km(k: u64, m: u64) -> (built: Result<Bloom, ConfigError>)
        ensures
            match built {
                Ok(filter) => {
                    &&& check_config(k, m) is Ok
                    &&& filter@ == fresh(k, m, filter@.seeds)
                    &&& filter@.valid()
                    &&& filter@.is_empty()
                },
                Err(e) => check_config(k, m) == Err::<(), ConfigError>(e),
            },
    {
        let seed1 = fresh_seed();
        let seed2 = fresh_seed();
        Bloom::with_seeds(k, m, seed1, seed2)
    }

    /// Clears every bit. The filter keeps its size, its rounds and its seeds.
    pub fn clear(&mut self)
        ensures
            final(self)@ == old(self)@.cleared(),
            final(self)@.valid(),
            final(self)@.is_empty(),
            forall|h1: u64, h2: u64| !final(self)@.contains(h1, h2),
    {
        proof {
            use_type_invariant(&*self);
            lemma_cleared_holds_nothing(self@);
        }
        self.data.fill(false);
    }

    /// The number of hash rounds per operation.
    pub fn hash_functions(&self) -> (k: u64)
        ensures
            k == self@.rounds,
            self@.valid(),
    {
        proof {
            use_type_invariant(self);
        }
        self.k
    }

    /// The number of bits in the store.
    pub fn number_of_bits(&self) -> (m: u64)
        ensures
            m == self@.bits.len(),
            self@.valid(),
    {
        proof {
            use_type_invariant(self);
        }
        self.m
    }

    /// Whether no bit is set.
    pub fn is_empty(&self) -> (empty: bool)
        ensures
            empty == self@.is_empty(),
            self@.valid(),
    {
        proof {
            use_type_invariant(self);
        }
        self.data.count_ones() == 0
    }

    /// A copy of the bits, first to last, for a caller that wants to look at
    /// them or to keep them.
    pub fn get_vec(&self) -> (bits: Vec<bool>)
        ensures
            bits@ == self@.bits,
            self@.valid(),
    {
        proof {
            use_type_invariant(self);
        }
        let len = self.m as usize;
        let mut bits: Vec<bool> = Vec::with_capacity(len);
        let mut pos: usize = 0;
        while pos < len
            invariant
                pos <= len,
                len == cells(self.data).len(),
                bits@ == cells(self.data).take(pos as int),
            decreases len - pos,
        {
            let bit = self.data.get(pos).unwrap();
            bits.push(bit);
            pos += 1;
            assert(bits@ =~= cells(self.data).take(pos as int));
        }
        assert(bits@ =~= cells(self.data));
        bits
    }

    /// The two base hashes of an element: the first under the filter's first
    /// seed, the second under its second.
    fn hash_element<T: Hash>(&self, element: &T) -> (pair: (u64, u64))
        ensures
            hashed_under(self@.seeds.0, pair.0),
            hashed_under(self@.seeds.1, pair.1),
    {
        let h1 = seeded_hash(self.seed1, element);
        let h2 = seeded_hash(self.seed2, element);
        (h1, h2)
    }

    /// The cell that round `i` probes. The sum is formed in 128 bits, where
    /// it cannot overflow, and reduced from there.
    fn compute_index(&self, h1: u64, h2: u64, i: u64) -> (pos: usize)
        ensures
            pos == index_at(h1, h2, i as int, self@.bits.len() as int),
            pos < self@.bits.len(),
    {
        proof {
            use_type_invariant(self);
            lemma_index_in_range(h1, h2, i as int, self.m as int);
            assert(i * h2 <= u64::MAX * u64::MAX) by (nonlinear_arith);
        }
        let wide: u128 = h1 as u128 + (i as u128) * (h2 as u128);
        (wide % (self.m as u128)) as usize
    }

    /// Answers for an element by its two base hashes: whether every bit that
    /// it probes is set.
    pub fn query_hashed(&self, h1: u64, h2: u64) -> (found: bool)
        ensures
            found == self@.contains(h1, h2),
            self@.valid(),
    {
        proof {
            use_type_invariant(self);
        }
        let mut i: u64 = 0;
        while i < self.k
            invariant
                i <= self.k,
                self@.valid(),
                all_probed_set(self@.bits, h1, h2, i as int),
            decreases self.k - i,
        {
            let pos = self.compute_index(h1, h2, i);
            let bit = self.data.get(pos).unwrap();
            if !bit {
                return false;
            }
            i += 1;
        }
        true
    }

    /// Answers for an element: "possibly a member" (`true`) or "definitely
    /// not a member" (`false`). The element is hashed under each of the
    /// filter's seeds, and the two hashes are looked up as
    /// [`Bloom::query_hashed`] does.
    pub fn query<T: Hash>(&self, element: T) -> (found: bool)
        ensures
            exists|h1: u64, h2: u64|
                hashed_under(self@.seeds.0, h1) && hashed_under(self@.seeds.1, h2)
                    && found == #[trigger] self@.contains(h1, h2),
            self@.is_empty() ==> !found,
            self@.valid(),
    {
        let (h1, h2) = self.hash_element(&element);
        proof {
            use_type_invariant(self);
            if self@.is_empty() {
                lemma_empty_contains_nothing(self@, h1, h2);
            }
        }
        self.query_hashed(h1, h2)
    }

    /// Puts an element in. The element is hashed under each of the filter's
    /// seeds, and the two hashes go in as [`Bloom::insert_hashed`] puts them.
    /// No bit is cleared.
    pub fn insert<T: Hash>(&mut self, element: T)
        ensures
            exists|h1: u64, h2: u64|
                hashed_under(old(self)@.seeds.0, h1) && hashed_under(old(self)@.seeds.1, h2)
                    && final(self)@ == #[trigger] old(self)@.inserted(h1, h2),
            final(self)@.valid(),
            final(self)@.rounds == old(self)@.rounds,
            final(self)@.seeds == old(self)@.seeds,
            final(self)@.bits.len() == old(self)@.bits.len(),
            forall|p: int|
                0 <= p < old(self)@.bits.len() && old(self)@.bits[p]
                    ==> #[trigger] final(self)@.bits[p],
            !final(self)@.is_empty(),
    {
        let (h1, h2) = self.hash_element(&element);
        self.insert_hashed(h1, h2);
    }

    /// Puts an element in by its two base hashes: sets every bit that it
    /// probes.
    pub fn insert_hashed(&mut self, h1: u64, h2: u64)
        ensures
            final(self)@ == old(self)@.inserted(h1, h2),
            final(self)@.valid(),
            final(self)@.contains(h1, h2),
            !final(self)@.is_empty(),
    {
        proof {
            use_type_invariant(&*self);
            lemma_inserted_contains(self@, h1, h2);
            lemma_inserted_not_empty(self@, h1, h2);
        }
        let mut i: u64 = 0;
        while i < self.k
            invariant
                i <= self.k,
                self.k == old(self).k,
                self.m == old(self).m,
                self.seed1 == old(self).seed1,
                self.seed2 == old(self).seed2,
                cells(self.data) == set_probed(cells(old(self).data), h1, h2, i as int),
            decreases self.k - i,
        {
            proof {
                use_type_invariant(&*self);
            }
            let pos = self.compute_index(h1, h2, i);
            self.data.set(pos, true);
            i += 1;
            proof {
                lemma_set_probed_step(cells(old(self).data), h1, h2, i - 1);
            }
        }
    }
}

} // verus!
