//! The bit store: a fixed-length array of single-bit cells with constant-time
//! reads and writes, kept in a `bitvec` vector.

use bitvec::order::Lsb0;
use bitvec::vec::BitVec;
use vstd::prelude::*;

verus! {

/// The largest number of cells that one store can hold.
pub const MAX_BITS: usize = usize::MAX / 8;

/// A fixed-length array of bits. The vector inside is `bitvec`'s, so the
/// verifier sees a store only through [`cells`] and the contracts below.
#[verifier::external_body]
pub struct Bits {
    inner: BitVec<usize, Lsb0>,
}

/// The cells of a store, first to last.
pub uninterp spec fn cells(bits: Bits) -> Seq<bool>;

/// How many cells of `s` are set.
pub open spec fn count_set(s: Seq<bool>) -> nat
    decreases s.len(),
{
    if s.len() == 0 {
        0
    } else {
        count_set(s.drop_last()) + if s.last() { 1nat } else { 0nat }
    }
}

impl Bits {
    /// Calls `BitVec::repeat(false, len)`, which allocates `len` cells and
    /// clears every one of them. It panics when `len` is more than an eighth
    /// of the address space; the precondition leaves those lengths out.
    #[verifier::external_body]
    pub(crate) fn zeroed(len: usize) -> (bits: Bits)
        requires
            len <= MAX_BITS,
        ensures
            cells(bits) == Seq::new(len as nat, |p: int| false),
    {
        Bits { inner: BitVec::repeat(false, len) }
    }

    /// Calls `BitSlice::set`, which writes `value` into the cell at `pos` and
    /// leaves every other cell as it was. It panics when `pos` is out of
    /// bounds; the precondition leaves those positions out.
    #[verifier::external_body]
    pub(crate) fn set(&mut self, pos: usize, value: bool)
        requires
            pos < cells(*old(self)).len(),
        ensures
            cells(*final(self)) == cells(*old(self)).update(pos as int, value),
        no_unwind
    {
        self.inner.set(pos, value);
    }

    /// Calls `BitSlice::get` with a single index, which yields the cell at
    /// `pos`, or nothing when `pos` is out of bounds.
    #[verifier::external_body]
    pub(crate) fn get(&self, pos: usize) -> (cell: Option<bool>)
        ensures
            cell == if pos < cells(*self).len() { Some(cells(*self)[pos as int]) } else { None },
    {
        self.inner.get(pos).as_deref().copied()
    }

    /// Calls `BitSlice::fill`, which writes `value` into every cell and keeps
    /// the length.
    #[verifier::external_body]
    pub(crate) fn fill(&mut self, value: bool)
        ensures
            cells(*final(self)) == Seq::new(cells(*old(self)).len(), |p: int| value),
        no_unwind
    {
        self.inner.fill(value);
    }

    /// Calls `BitSlice::count_ones`, which counts the cells that are set.
    #[verifier::external_body]
    pub(crate) fn count_ones(&self) -> (ones: usize)
        ensures
            ones == count_set(cells(*self)),
    {
        self.inner.count_ones()
    }
}

/// Nothing is counted exactly when every cell is clear.
pub proof fn lemma_count_set_zero(s: Seq<bool>)
    ensures
        count_set(s) == 0 <==> forall|p: int| 0 <= p < s.len() ==> !s[p],
    decreases s.len(),
{
    if s.len() > 0 {
        let front = s.drop_last();
        lemma_count_set_zero(front);
        if count_set(s) == 0 {
            assert forall|p: int| 0 <= p < s.len() implies !s[p] by {
                if p < s.len() - 1 {
                    assert(front[p] == s[p]);
                }
            }
        } else if forall|p: int| 0 <= p < s.len() ==> !s[p] {
            assert forall|p: int| 0 <= p < front.len() implies !front[p] by {
                assert(front[p] == s[p]);
            }
        }
    }
}

} // verus!
