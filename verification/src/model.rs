//! The mathematical model of the filter: which cells an element touches, and
//! what inserting, querying and clearing mean for a sequence of bits.

use crate::store::{count_set, lemma_count_set_zero};
use std::collections::hash_map::DefaultHasher;
use vstd::bytes::spec_u64_to_le_bytes;
use vstd::prelude::*;
use vstd::std_specs::hash::DefaultHasherAdditionalSpecFns;

verus! {

/// Whether `h` is a hash under `seed`: the digest that the standard hasher
/// gives for some run of writes of which the first is the seed's eight bytes,
/// low byte first.
pub open spec fn hashed_under(seed: u64, h: u64) -> bool {
    exists|log: Seq<Seq<u8>>|
        log.len() > 0 && log[0] == spec_u64_to_le_bytes(seed)
            && h == #[trigger] DefaultHasher::spec_finish(log)
}

/// The cell probed in round `i` for an element with base hashes `h1` and
/// `h2`, in a store of `m` cells: `(h1 + i * h2) mod m`, over the integers.
pub open spec fn index_at(h1: u64, h2: u64, i: int, m: int) -> int {
    (h1 + i * h2) % m
}

/// Whether one of the first `rounds` rounds probes cell `p`.
pub open spec fn probed(h1: u64, h2: u64, rounds: int, m: int, p: int) -> bool {
    exists|i: int| 0 <= i < rounds && #[trigger] index_at(h1, h2, i, m) == p
}

/// `bits` with every cell set that one of the first `rounds` rounds probes.
pub open spec fn set_probed(bits: Seq<bool>, h1: u64, h2: u64, rounds: int) -> Seq<bool> {
    Seq::new(bits.len(), |p: int| bits[p] || probed(h1, h2, rounds, bits.len() as int, p))
}

/// Whether every one of the first `rounds` rounds probes a cell that is set.
pub open spec fn all_probed_set(bits: Seq<bool>, h1: u64, h2: u64, rounds: int) -> bool {
    forall|i: int| 0 <= i < rounds ==> bits[#[trigger] index_at(h1, h2, i, bits.len() as int)]
}

/// What a filter is, apart from how it is stored.
pub struct BloomView {
    /// The cells of the bit store; their number is the filter's `m`.
    pub bits: Seq<bool>,
    /// The number of hash rounds per operation, the filter's `k`.
    pub rounds: nat,
    /// The two seeds that the base hashes are derived with.
    pub seeds: (u64, u64),
}

/// A new filter: `m` clear cells, `k` rounds, and the given seeds.
pub open spec fn fresh(k: u64, m: u64, seeds: (u64, u64)) -> BloomView {
    BloomView { bits: Seq::new(m as nat, |p: int| false), rounds: k as nat, seeds }
}

impl BloomView {
    /// A filter has at least one cell and at least two rounds.
    pub open spec fn valid(self) -> bool {
        self.bits.len() > 0 && self.rounds >= 2
    }

    /// The filter after the element with base hashes `h1`, `h2` went in.
    pub open spec fn inserted(self, h1: u64, h2: u64) -> BloomView {
        BloomView { bits: set_probed(self.bits, h1, h2, self.rounds as int), ..self }
    }

    /// The filter after each pair of base hashes in `hashes` went in, in order.
    pub open spec fn inserted_all(self, hashes: Seq<(u64, u64)>) -> BloomView
        decreases hashes.len(),
    {
        if hashes.len() == 0 {
            self
        } else {
            self.inserted_all(hashes.drop_last()).inserted(hashes.last().0, hashes.last().1)
        }
    }

    /// The answer to a query for the element with base hashes `h1`, `h2`.
    pub open spec fn contains(self, h1: u64, h2: u64) -> bool {
        all_probed_set(self.bits, h1, h2, self.rounds as int)
    }

    /// The filter with every cell clear, and nothing else changed.
    pub open spec fn cleared(self) -> BloomView {
        BloomView { bits: Seq::new(self.bits.len(), |p: int| false), ..self }
    }

    /// A filter is empty when no cell is set.
    pub open spec fn is_empty(self) -> bool {
        count_set(self.bits) == 0
    }
}

/// Every probed cell lies inside the store.
pub proof fn lemma_index_in_range(h1: u64, h2: u64, i: int, m: int)
    requires
        m > 0,
    ensures
        0 <= index_at(h1, h2, i, m) < m,
{
    assert(0 <= (h1 + i * h2) % m < m) by (nonlinear_arith)
        requires
            m > 0,
    ;
}

/// One more round sets one more cell: the one that this round probes.
pub proof fn lemma_set_probed_step(bits: Seq<bool>, h1: u64, h2: u64, i: int)
    requires
        bits.len() > 0,
        i >= 0,
    ensures
        set_probed(bits, h1, h2, i + 1) == set_probed(bits, h1, h2, i).update(
            index_at(h1, h2, i, bits.len() as int),
            true,
        ),
{
    let m = bits.len() as int;
    let pos = index_at(h1, h2, i, m);
    let more = set_probed(bits, h1, h2, i + 1);
    let step = set_probed(bits, h1, h2, i).update(pos, true);
    lemma_index_in_range(h1, h2, i, m);
    assert forall|p: int| 0 <= p < m implies more[p] == step[p] by {
        if probed(h1, h2, i + 1, m, p) && p != pos {
            let r = choose|r: int| 0 <= r < i + 1 && #[trigger] index_at(h1, h2, r, m) == p;
            assert(0 <= r < i && index_at(h1, h2, r, m) == p);
        }
        if probed(h1, h2, i, m, p) {
            let r = choose|r: int| 0 <= r < i && #[trigger] index_at(h1, h2, r, m) == p;
            assert(0 <= r < i + 1 && index_at(h1, h2, r, m) == p);
        }
        if p == pos {
            assert(0 <= i < i + 1 && index_at(h1, h2, i, m) == p);
        }
    }
    assert(more =~= step);
}

/// Inserting only sets bits: the number of cells, the rounds and the seeds
/// stay, every cell that was set stays set, and a valid filter stays valid.
pub proof fn lemma_insert_only_sets(f: BloomView, h1: u64, h2: u64)
    requires
        f.valid(),
    ensures
        f.inserted(h1, h2).valid(),
        f.inserted(h1, h2).bits.len() == f.bits.len(),
        f.inserted(h1, h2).rounds == f.rounds,
        f.inserted(h1, h2).seeds == f.seeds,
        forall|p: int| 0 <= p < f.bits.len() && f.bits[p] ==> #[trigger] f.inserted(h1, h2).bits[p],
{
}

/// An element is found right after it went in.
pub proof fn lemma_inserted_contains(f: BloomView, h1: u64, h2: u64)
    requires
        f.valid(),
    ensures
        f.inserted(h1, h2).contains(h1, h2),
{
    let m = f.bits.len() as int;
    let after = f.inserted(h1, h2);
    assert forall|i: int| 0 <= i < after.rounds implies after.bits[#[trigger] index_at(
        h1,
        h2,
        i,
        after.bits.len() as int,
    )] by {
        lemma_index_in_range(h1, h2, i, m);
        assert(probed(h1, h2, f.rounds as int, m, index_at(h1, h2, i, m)));
    }
}

/// Inserting never clears a cell: what was found before is found after.
pub proof fn lemma_insert_keeps_members(f: BloomView, h1: u64, h2: u64, g1: u64, g2: u64)
    requires
        f.valid(),
        f.contains(g1, g2),
    ensures
        f.inserted(h1, h2).contains(g1, g2),
{
    let m = f.bits.len() as int;
    let after = f.inserted(h1, h2);
    assert forall|i: int| 0 <= i < after.rounds implies after.bits[#[trigger] index_at(
        g1,
        g2,
        i,
        after.bits.len() as int,
    )] by {
        lemma_index_in_range(g1, g2, i, m);
        assert(f.bits[index_at(g1, g2, i, m)]);
    }
}

/// Any number of insertions keeps a valid filter valid.
pub proof fn lemma_inserted_all_valid(f: BloomView, hashes: Seq<(u64, u64)>)
    requires
        f.valid(),
    ensures
        f.inserted_all(hashes).valid(),
        f.inserted_all(hashes).bits.len() == f.bits.len(),
        f.inserted_all(hashes).rounds == f.rounds,
        f.inserted_all(hashes).seeds == f.seeds,
    decreases hashes.len(),
{
    if hashes.len() > 0 {
        lemma_inserted_all_valid(f, hashes.drop_last());
    }
}

/// No false negatives: an element that went in is found, however many
/// elements went in before it and after it.
pub proof fn lemma_no_false_negatives(f: BloomView, hashes: Seq<(u64, u64)>, j: int)
    requires
        f.valid(),
        0 <= j < hashes.len(),
    ensures
        f.inserted_all(hashes).contains(hashes[j].0, hashes[j].1),
    decreases hashes.len(),
{
    let front = hashes.drop_last();
    let before = f.inserted_all(front);
    let (h1, h2) = hashes.last();
    lemma_inserted_all_valid(f, front);
    if j == hashes.len() - 1 {
        lemma_inserted_contains(before, h1, h2);
    } else {
        lemma_no_false_negatives(f, front, j);
        assert(front[j] == hashes[j]);
        lemma_insert_keeps_members(before, h1, h2, hashes[j].0, hashes[j].1);
    }
}

/// Inserting an element a second time changes nothing.
pub proof fn lemma_insert_idempotent(f: BloomView, h1: u64, h2: u64)
    ensures
        f.inserted(h1, h2).inserted(h1, h2) == f.inserted(h1, h2),
{
    assert(f.inserted(h1, h2).inserted(h1, h2).bits =~= f.inserted(h1, h2).bits);
}

/// A filter is empty exactly when every one of its cells is clear.
pub proof fn lemma_empty_means_all_clear(f: BloomView)
    ensures
        f.is_empty() <==> forall|p: int| 0 <= p < f.bits.len() ==> !f.bits[p],
{
    lemma_count_set_zero(f.bits);
}

/// Nothing is found in an empty filter.
pub proof fn lemma_empty_contains_nothing(f: BloomView, h1: u64, h2: u64)
    requires
        f.valid(),
        f.is_empty(),
    ensures
        !f.contains(h1, h2),
{
    let m = f.bits.len() as int;
    lemma_empty_means_all_clear(f);
    lemma_index_in_range(h1, h2, 0, m);
    assert(!f.bits[index_at(h1, h2, 0, m)]);
}

/// A filter that an element went into is not empty.
pub proof fn lemma_inserted_not_empty(f: BloomView, h1: u64, h2: u64)
    requires
        f.valid(),
    ensures
        !f.inserted(h1, h2).is_empty(),
{
    let m = f.bits.len() as int;
    let after = f.inserted(h1, h2);
    let first = index_at(h1, h2, 0, m);
    lemma_index_in_range(h1, h2, 0, m);
    assert(probed(h1, h2, f.rounds as int, m, first));
    assert(after.bits[first]);
    lemma_empty_means_all_clear(after);
}

/// A cleared filter is empty, and no element is found in it.
pub proof fn lemma_cleared_holds_nothing(f: BloomView)
    requires
        f.valid(),
    ensures
        f.cleared().valid(),
        f.cleared().is_empty(),
        forall|h1: u64, h2: u64| !f.cleared().contains(h1, h2),
{
    let empty = f.cleared();
    lemma_empty_means_all_clear(empty);
    assert forall|h1: u64, h2: u64| !empty.contains(h1, h2) by {
        lemma_empty_contains_nothing(empty, h1, h2);
    }
}

} // verus!
