//! The eight-bit input accumulator: the player toggles independent bits and
//! the composed byte is the value currently being targeted.

use vstd::prelude::*;

verus! {

/// Big-endian composition of eight bits: bit 0 is the most significant.
pub open spec fn compose(bits: Seq<u8>) -> int
    recommends
        bits.len() == 8,
{
    bits[0] * 128 + bits[1] * 64 + bits[2] * 32 + bits[3] * 16 + bits[4] * 8 + bits[5] * 4
        + bits[6] * 2 + bits[7]
}

/// `bits` after flipping the bit at `idx` (0 becomes 1, 1 becomes 0).
pub open spec fn toggled(bits: Seq<u8>, idx: int) -> Seq<u8>
    recommends
        0 <= idx < bits.len(),
        bits[idx] <= 1,
{
    bits.update(idx, (1 - bits[idx]) as u8)
}

/// Eight independent toggle bits plus the byte composed from them.
pub struct InputAccumulator {
    pub bits: Vec<u8>,
    pub value: u8,
}

impl InputAccumulator {
    /// The bit vector holds exactly eight bits, each 0 or 1.
    pub open spec fn bits_wf(self) -> bool {
        &&& self.bits@.len() == 8
        &&& forall|i: int| 0 <= i < 8 ==> self.bits@[i] <= 1
    }

    /// Well-formed and with the stored value in step with the bits.
    pub open spec fn wf(self) -> bool {
        &&& self.bits_wf()
        &&& self.value == compose(self.bits@)
    }

    /// The state that `reset` establishes: all bits zero, value zero.
    pub open spec fn is_zeroed(self) -> bool {
        &&& self.bits@ =~= seq![0u8, 0u8, 0u8, 0u8, 0u8, 0u8, 0u8, 0u8]
        &&& self.value == 0
    }

    pub fn new() -> (acc: Self)
        ensures
            acc.wf(),
            acc.is_zeroed(),
    {
        let mut bits: Vec<u8> = Vec::new();
        let mut i: usize = 0;
        while i < 8
            invariant
                i <= 8,
                bits@.len() == i,
                forall|j: int| 0 <= j < i ==> bits@[j] == 0,
            decreases 8 - i,
        {
            bits.push(0);
            i = i + 1;
        }
        let acc = InputAccumulator { bits, value: 0 };
        proof {
            assert(acc.bits@ =~= seq![0u8, 0u8, 0u8, 0u8, 0u8, 0u8, 0u8, 0u8]);
        }
        acc
    }

    /// Flip one of the eight bits. The stored value is left stale on purpose:
    /// it is recomputed once per simulation tick by `recompute`.
    pub fn toggle(&mut self, idx: usize)
        requires
            old(self).bits_wf(),
            idx < 8,
        ensures
            final(self).bits_wf(),
            final(self).bits@ =~= toggled(old(self).bits@, idx as int),
            final(self).value == old(self).value,
    {
        let bit = self.bits[idx];
        self.bits.set(idx, bit ^ 1);
        proof {
            assert((bit ^ 1) == 1 - bit) by (bit_vector)
                requires
                    bit <= 1,
            ;
        }
    }

    /// Recompute the composed byte from all eight bits. Recomputing from
    /// scratch, rather than incrementally, means a reset or a stale bit
    /// pattern is always reflected correctly.
    pub fn recompute(&mut self)
        requires
            old(self).bits_wf(),
        ensures
            final(self).wf(),
            final(self).bits@ == old(self).bits@,
            final(self).value == compose(old(self).bits@),
    {
        self.value = self.bits[0] * 128 + self.bits[1] * 64 + self.bits[2] * 32 + self.bits[3]
            * 16 + self.bits[4] * 8 + self.bits[5] * 4 + self.bits[6] * 2 + self.bits[7];
    }

    /// The composed byte, recomputed from the bits at this instant.
    pub fn value(&self) -> (v: u8)
        requires
            self.bits_wf(),
        ensures
            v == compose(self.bits@),
    {
        self.bits[0] * 128 + self.bits[1] * 64 + self.bits[2] * 32 + self.bits[3] * 16
            + self.bits[4] * 8 + self.bits[5] * 4 + self.bits[6] * 2 + self.bits[7]
    }

    /// Zero all bits and the composed value.
    pub fn reset(&mut self)
        ensures
            final(self).wf(),
            final(self).is_zeroed(),
    {
        let mut bits: Vec<u8> = Vec::new();
        let mut i: usize = 0;
        while i < 8
            invariant
                i <= 8,
                bits@.len() == i,
                forall|j: int| 0 <= j < i ==> bits@[j] == 0,
            decreases 8 - i,
        {
            bits.push(0);
            i = i + 1;
        }
        self.bits = bits;
        self.value = 0;
        proof {
            assert(self.bits@ =~= seq![0u8, 0u8, 0u8, 0u8, 0u8, 0u8, 0u8, 0u8]);
        }
    }
}

/// Resetting is idempotent: the state `reset` establishes does not depend on
/// the state it started from, so resetting twice in succession yields exactly
/// the state a single reset yields.
pub proof fn lemma_reset_idempotent(once: InputAccumulator, twice: InputAccumulator)
    requires
        once.is_zeroed(),
        twice.is_zeroed(),
    ensures
        once.bits@ == twice.bits@,
        once.value == twice.value,
{
}

/// The composed value depends only on the bits at the instant of composition,
/// and toggles of distinct bits commute, so the order in which a tick's toggle
/// events arrive does not affect the value composed afterwards.
pub proof fn lemma_toggle_order_irrelevant(bits: Seq<u8>, i: int, j: int)
    requires
        bits.len() == 8,
        forall|k: int| 0 <= k < 8 ==> bits[k] <= 1,
        0 <= i < 8,
        0 <= j < 8,
        i != j,
    ensures
        toggled(toggled(bits, i), j) =~= toggled(toggled(bits, j), i),
{
}

} // verus!
