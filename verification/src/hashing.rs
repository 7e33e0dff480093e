//! Base hashes: two 64-bit values per element, each derived from the element
//! and one of the filter's two seeds with the standard library's hasher.

use crate::model::hashed_under;
use std::collections::hash_map::DefaultHasher;
use std::hash::{BuildHasher, Hash, Hasher, RandomState};
use vstd::bytes::u64_to_le_bytes;
use vstd::prelude::*;

verus! {

/// Calls `RandomState::new`, which draws fresh random keys. Nothing is
/// claimed of them: every call may give another state.
#[verifier::external_body]
fn random_state() -> RandomState {
    RandomState::new()
}

/// Calls `BuildHasher::build_hasher` on a `RandomState`, which gives a hasher
/// keyed with that state's keys. Nothing is claimed of the hasher.
#[verifier::external_body]
fn keyed_hasher(state: &RandomState) -> DefaultHasher {
    state.build_hasher()
}

/// Calls `Hash::hash`, which feeds `element` into `state`. An element can
/// reach the hasher only through the writes that `Hasher` offers, so what was
/// written before the call is still there after it, in front of whatever the
/// element wrote. What that is is up to the element's type, and nothing is
/// claimed of it.
#[verifier::external_body]
fn feed<T: Hash>(element: &T, state: &mut DefaultHasher)
    ensures
        old(state)@.is_prefix_of(final(state)@),
{
    element.hash(state);
}

/// Draws one seed from the process's random source.
pub(crate) fn fresh_seed() -> u64 {
    let state = random_state();
    let hasher = keyed_hasher(&state);
    hasher.finish()
}

/// The hash of `element` under `seed`: the seed's eight bytes go into a new
/// hasher first, the element after them, and the digest of both comes out.
pub(crate) fn seeded_hash<T: Hash>(seed: u64, element: &T) -> (h: u64)
    ensures
        hashed_under(seed, h),
{
    let mut state = DefaultHasher::new();
    let prefix = u64_to_le_bytes(seed);
    state.write(prefix.as_slice());
    let ghost seeded = state@;
    feed(element, &mut state);
    proof {
        assert(seeded.len() == 1);
        assert(seeded == state@.subrange(0, 1));
        assert(state@.subrange(0, 1)[0] == state@[0]);
    }
    state.finish()
}

} // verus!
