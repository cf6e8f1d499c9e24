//! Double-buffered cell state store.
//!
//! Two bit-sets of equal size hold the authoritative generation (the
//! active one) and a scratch generation being written. A step reads the
//! active set only and writes the scratch one; committing swaps their
//! roles, so a half-written generation is never observable.

use crate::bitset::bit_view;
use crate::bitset::bits_copy_from;
use crate::bitset::bits_flip;
use crate::bitset::bits_get;
use crate::bitset::bits_new;
use crate::bitset::bits_put;
use vstd::prelude::*;

verus! {

/// The deterministic seed rule: cell `i` of a fresh grid starts alive
/// exactly when `i % 2 == 0 || i % 7 == 0`.
pub open spec fn seed_alive(i: int) -> bool {
    i % 2 == 0 || i % 7 == 0
}

/// The generation a fresh store of `n` cells holds.
pub open spec fn seed_seq(n: nat) -> Seq<bool> {
    Seq::new(n, |i: int| seed_alive(i))
}

/// Whether cell index `j` occurs in `idxs`.
pub open spec fn contains_index(idxs: Seq<usize>, j: int) -> bool {
    exists|k: int| 0 <= k < idxs.len() && idxs[k] as int == j
}

pub struct CellBuffer {
    buffer_0: fixedbitset::FixedBitSet,
    buffer_1: fixedbitset::FixedBitSet,
    even_buffer_active: bool,
}

impl CellBuffer {
    /// Both generations hold the same number of bits.
    pub closed spec fn wf(&self) -> bool {
        bit_view(self.buffer_0).len() == bit_view(self.buffer_1).len()
    }

    /// The authoritative generation.
    pub closed spec fn active_view(&self) -> Seq<bool> {
        if self.even_buffer_active {
            bit_view(self.buffer_0)
        } else {
            bit_view(self.buffer_1)
        }
    }

    /// The generation being written.
    pub closed spec fn scratch_view(&self) -> Seq<bool> {
        if self.even_buffer_active {
            bit_view(self.buffer_1)
        } else {
            bit_view(self.buffer_0)
        }
    }

    /// The number of cells each generation holds.
    pub open spec fn size(&self) -> nat {
        self.active_view().len()
    }

    /// In a well-formed store both generations hold `size()` bits.
    pub proof fn lemma_wf_sizes(&self)
        requires
            self.wf(),
        ensures
            self.active_view().len() == self.size(),
            self.scratch_view().len() == self.size(),
    {
    }

    /// Allocates both generations at `size` bits and seeds the active
    /// one with the deterministic rule.
    pub fn new(size: usize) -> (r: CellBuffer)
        ensures
            r.wf(),
            r.size() == size,
            r.active_view() == seed_seq(size as nat),
            forall|j: int| 0 <= j < size ==> !r.scratch_view()[j],
    {
        let mut buffer_0 = bits_new(size);
        let buffer_1 = bits_new(size);

        let mut i: usize = 0;
        while i < size
            invariant
                i <= size,
                bit_view(buffer_0).len() == size,
                forall|j: int| 0 <= j < i ==> bit_view(buffer_0)[j] == seed_alive(j),
            decreases size - i,
        {
            bits_put(&mut buffer_0, i, i % 2 == 0 || i % 7 == 0);
            i += 1;
        }
        proof {
            assert(bit_view(buffer_0) =~= seed_seq(size as nat));
        }

        CellBuffer { buffer_0, buffer_1, even_buffer_active: true }
    }

    /// Read-only access to the active set and the scratch set, in that
    /// order.
    pub fn buffers(&self) -> (r: (&fixedbitset::FixedBitSet, &fixedbitset::FixedBitSet))
        ensures
            bit_view(*r.0) == self.active_view(),
            bit_view(*r.1) == self.scratch_view(),
    {
        if self.even_buffer_active {
            (&self.buffer_0, &self.buffer_1)
        } else {
            (&self.buffer_1, &self.buffer_0)
        }
    }

    /// Reads one cell of the active generation.
    pub fn active_bit(&self, idx: usize) -> (r: bool)
        requires
            idx < self.size(),
        ensures
            r == self.active_view()[idx as int],
    {
        if self.even_buffer_active {
            bits_get(&self.buffer_0, idx)
        } else {
            bits_get(&self.buffer_1, idx)
        }
    }

    /// Writes one cell of the scratch generation; the active one is
    /// untouched.
    pub fn write_scratch(&mut self, idx: usize, alive: bool)
        requires
            old(self).wf(),
            idx < old(self).size(),
        ensures
            final(self).wf(),
            final(self).active_view() == old(self).active_view(),
            final(self).scratch_view() == old(self).scratch_view().update(idx as int, alive),
    {
        if self.even_buffer_active {
            bits_put(&mut self.buffer_1, idx, alive);
        } else {
            bits_put(&mut self.buffer_0, idx, alive);
        }
    }

    /// Commits a transition: the scratch generation becomes active and
    /// the former active one becomes stale scratch.
    pub fn swap(&mut self)
        ensures
            final(self).wf() == old(self).wf(),
            final(self).active_view() == old(self).scratch_view(),
            final(self).scratch_view() == old(self).active_view(),
    {
        self.even_buffer_active = !self.even_buffer_active;
    }

    /// Reallocates both generations at `size` bits, reseeds the active
    /// one, and resets the buffer roles. A resize is a hard reset: the
    /// previous generation is discarded.
    pub fn update_size(&mut self, size: usize)
        ensures
            final(self).wf(),
            final(self).size() == size,
            final(self).active_view() == seed_seq(size as nat),
            forall|j: int| 0 <= j < size ==> !final(self).scratch_view()[j],
    {
        self.even_buffer_active = true;
        self.buffer_0 = bits_new(size);
        self.buffer_1 = bits_new(size);

        let mut i: usize = 0;
        while i < size
            invariant
                i <= size,
                self.even_buffer_active,
                bit_view(self.buffer_0).len() == size,
                bit_view(self.buffer_1).len() == size,
                forall|j: int| 0 <= j < size ==> !bit_view(self.buffer_1)[j],
                forall|j: int| 0 <= j < i ==> bit_view(self.buffer_0)[j] == seed_alive(j),
            decreases size - i,
        {
            bits_put(&mut self.buffer_0, i, i % 2 == 0 || i % 7 == 0);
            i += 1;
        }
        proof {
            assert(self.active_view() =~= seed_seq(size as nat));
        }
    }

    /// Copies the active generation into scratch, forces each given
    /// index alive there, and commits. Cells already alive stay alive.
    pub fn set_cells(&mut self, set_cell_indices: Vec<usize>)
        requires
            old(self).wf(),
            forall|k: int|
                0 <= k < set_cell_indices@.len() ==> set_cell_indices@[k] < old(self).size(),
        ensures
            final(self).wf(),
            final(self).size() == old(self).size(),
            final(self).active_view().len() == old(self).active_view().len(),
            forall|j: int|
                0 <= j < old(self).size() ==> final(self).active_view()[j] == (old(
                    self,
                ).active_view()[j] || contains_index(set_cell_indices@, j)),
    {
        if self.even_buffer_active {
            bits_copy_from(&mut self.buffer_1, &self.buffer_0);
        } else {
            bits_copy_from(&mut self.buffer_0, &self.buffer_1);
        }

        let n = set_cell_indices.len();
        let mut k: usize = 0;
        while k < n
            invariant
                k <= n,
                n == set_cell_indices@.len(),
                self.wf(),
                self.size() == old(self).size(),
                self.active_view() == old(self).active_view(),
                forall|kk: int| 0 <= kk < n ==> set_cell_indices@[kk] < self.size(),
                forall|j: int|
                    0 <= j < self.size() ==> self.scratch_view()[j] == (old(
                        self,
                    ).active_view()[j] || contains_index(set_cell_indices@.take(k as int), j)),
            decreases n - k,
        {
            let idx = set_cell_indices[k];
            self.write_scratch(idx, true);
            k += 1;
            proof {
                assert forall|j: int| 0 <= j < self.size() implies self.scratch_view()[j] == (old(
                    self,
                ).active_view()[j] || contains_index(set_cell_indices@.take(k as int), j)) by {
                    let prefix = set_cell_indices@.take(k as int);
                    let prev = set_cell_indices@.take(k as int - 1);
                    if j == idx {
                        assert(prefix[k - 1] as int == j);
                        assert(contains_index(prefix, j));
                    } else {
                        if contains_index(prefix, j) {
                            let w = choose|w: int|
                                0 <= w < prefix.len() && prefix[w] as int == j;
                            assert(prefix[k - 1] == idx);
                            assert(w != k - 1);
                            assert(prev[w] as int == j);
                            assert(contains_index(prev, j));
                        }
                        if contains_index(prev, j) {
                            let w = choose|w: int| 0 <= w < prev.len() && prev[w] as int == j;
                            assert(prefix[w] as int == j);
                            assert(contains_index(prefix, j));
                        }
                    }
                }
            }
        }
        proof {
            assert(set_cell_indices@.take(n as int) =~= set_cell_indices@);
        }
        self.swap();
    }

    /// Copies the active generation into scratch, flips one cell there,
    /// and commits.
    pub fn toggle_cell(&mut self, idx: usize)
        requires
            old(self).wf(),
            idx < old(self).size(),
        ensures
            final(self).wf(),
            final(self).size() == old(self).size(),
            final(self).active_view() == old(self).active_view().update(
                idx as int,
                !old(self).active_view()[idx as int],
            ),
    {
        if self.even_buffer_active {
            bits_copy_from(&mut self.buffer_1, &self.buffer_0);
            bits_flip(&mut self.buffer_1, idx);
        } else {
            bits_copy_from(&mut self.buffer_0, &self.buffer_1);
            bits_flip(&mut self.buffer_0, idx);
        }
        self.swap();
    }
}

} // verus!
