//! Slots, epochs and 32-byte roots.

use vstd::prelude::*;

verus! {

/// A 32-byte hash tree root.
pub type Hash256 = [u8; 32];

/// The root whose bytes are all zero.
pub const ZERO_ROOT: Hash256 = [
    0, 0, 0, 0, 0, 0, 0, 0, 0, 0, 0, 0, 0, 0, 0, 0,
    0, 0, 0, 0, 0, 0, 0, 0, 0, 0, 0, 0, 0, 0, 0, 0,
];

/// The position of a column among the columns of an extended payload.
pub type ColumnIndex = u64;

/// A slot of the beacon chain.
#[derive(Clone, Copy, Debug, PartialEq, Eq, Hash, Structural)]
pub struct Slot(pub u64);

/// An epoch of the beacon chain.
#[derive(Clone, Copy, Debug, PartialEq, Eq, Hash, Structural)]
pub struct Epoch(pub u64);

impl Slot {
    pub fn new(slot: u64) -> (result: Slot)
        ensures
            result == Slot(slot),
    {
        Slot(slot)
    }

    pub fn as_u64(&self) -> (result: u64)
        ensures
            result == self.0,
    {
        self.0
    }

    /// The epoch that a slot lies in, with `slots_per_epoch` slots to an epoch.
    pub open spec fn spec_epoch(self, slots_per_epoch: u64) -> Epoch {
        Epoch((self.0 as nat / slots_per_epoch as nat) as u64)
    }

    /// The epoch that this slot lies in.
    pub fn epoch(&self, slots_per_epoch: u64) -> (result: Epoch)
        requires
            slots_per_epoch > 0,
        ensures
            result == self.spec_epoch(slots_per_epoch),
            result.0 * slots_per_epoch <= self.0 < (result.0 + 1) * slots_per_epoch,
    {
        proof {
            law_a_slot_lies_in_its_epoch(*self, slots_per_epoch);
        }
        Epoch(self.0 / slots_per_epoch)
    }
}

impl Epoch {
    pub fn new(epoch: u64) -> (result: Epoch)
        ensures
            result == Epoch(epoch),
    {
        Epoch(epoch)
    }

    pub fn as_u64(&self) -> (result: u64)
        ensures
            result == self.0,
    {
        self.0
    }

    /// The first slot of an epoch; the last slot there is, where that number does not fit.
    pub open spec fn spec_start_slot(self, slots_per_epoch: u64) -> Slot {
        if self.0 * slots_per_epoch <= u64::MAX {
            Slot((self.0 * slots_per_epoch) as u64)
        } else {
            Slot(u64::MAX)
        }
    }

    /// The first slot of this epoch, saturating at the last slot there is.
    pub fn start_slot(&self, slots_per_epoch: u64) -> (result: Slot)
        ensures
            result == self.spec_start_slot(slots_per_epoch),
            self.0 * slots_per_epoch <= u64::MAX ==> result.0 == self.0 * slots_per_epoch,
            self.0 * slots_per_epoch > u64::MAX ==> result.0 == u64::MAX,
    {
        match self.0.checked_mul(slots_per_epoch) {
            Some(slot) => Slot(slot),
            None => Slot(u64::MAX),
        }
    }
}

/// Whether two roots are equal.
pub fn roots_equal(a: &Hash256, b: &Hash256) -> (result: bool)
    ensures
        result == (*a == *b),
{
    let mut i: usize = 0;
    while i < 32
        invariant
            i <= 32,
            forall|j: int| 0 <= j < i ==> a[j] == b[j],
        decreases 32 - i,
    {
        if a[i] != b[i] {
            return false;
        }
        i += 1;
    }
    assert(*a =~= *b);
    true
}

/// A slot lies between the first slot of its epoch and that of the next.
pub proof fn law_a_slot_lies_in_its_epoch(slot: Slot, slots_per_epoch: u64)
    requires
        slots_per_epoch > 0,
    ensures
        ({
            let epoch = slot.spec_epoch(slots_per_epoch);
            epoch.0 * slots_per_epoch <= slot.0 < (epoch.0 + 1) * slots_per_epoch
        }),
{
    let quotient = slot.0 as int / slots_per_epoch as int;
    vstd::arithmetic::div_mod::lemma_fundamental_div_mod(slot.0 as int, slots_per_epoch as int);
    vstd::arithmetic::div_mod::lemma_div_is_ordered_by_denominator(
        slot.0 as int,
        1,
        slots_per_epoch as int,
    );
    assert(slot.spec_epoch(slots_per_epoch).0 == quotient);
    assert(quotient * slots_per_epoch <= slot.0 < (quotient + 1) * slots_per_epoch)
        by (nonlinear_arith)
        requires
            slot.0 == slots_per_epoch * quotient + slot.0 as int % slots_per_epoch as int,
            0 <= slot.0 as int % slots_per_epoch as int,
            (slot.0 as int % slots_per_epoch as int) < slots_per_epoch,
    ;
}

/// The first slot of an epoch lies in that epoch.
pub proof fn law_an_epoch_starts_with_its_first_slot(epoch: Epoch, slots_per_epoch: u64)
    requires
        slots_per_epoch > 0,
        epoch.0 * slots_per_epoch <= u64::MAX,
    ensures
        epoch.spec_start_slot(slots_per_epoch).0 == epoch.0 * slots_per_epoch,
        epoch.spec_start_slot(slots_per_epoch).spec_epoch(slots_per_epoch) == epoch,
{
    vstd::arithmetic::div_mod::lemma_div_by_multiple(epoch.0 as int, slots_per_epoch as int);
}

} // verus!
