//! Identifies each payload column subnet by an integer.
//!
//! Every node subscribes to every payload column subnet, so there is one subnet per column and no
//! selection by custody.

use crate::eth_spec::EthSpec;
use crate::primitives::ColumnIndex;
use crate::text::{decimal, with_decimal};
use std::ops::Deref;
use vstd::prelude::*;
use vstd::std_specs::convert::{FromSpec, FromSpecImpl};

verus! {

/// The id of a payload column subnet.
#[derive(Clone, Copy, Debug, PartialEq, Eq, Hash, Structural)]
pub struct PayloadColumnSubnetId(u64);

impl View for PayloadColumnSubnetId {
    type V = u64;

    closed spec fn view(&self) -> u64 {
        self.0
    }
}

impl PayloadColumnSubnetId {
    pub fn new(id: u64) -> (result: Self)
        ensures
            result@ == id,
    {
        PayloadColumnSubnetId(id)
    }

    /// There is exactly one payload column subnet per column, so the subnet id and the column index
    /// are the same value.
    pub fn from_column_index(column_index: ColumnIndex) -> (result: Self)
        ensures
            result@ == column_index,
    {
        PayloadColumnSubnetId(column_index)
    }

    /// A mutable reference to the number of this subnet.
    pub fn as_mut(&mut self) -> (result: &mut u64)
        ensures
            *result == old(self)@,
            final(self)@ == *final(result),
    {
        &mut self.0
    }

    /// The number of this subnet in decimal.
    pub fn to_string(&self) -> (result: String)
        ensures
            result@ == decimal(self@ as nat),
    {
        let text = with_decimal("", self.0, "");
        proof {
            reveal_strlit("");
            assert(text@ =~= decimal(self@ as nat));
        }
        text
    }
}

impl Deref for PayloadColumnSubnetId {
    type Target = u64;

    fn deref(&self) -> (result: &u64)
        ensures
            *result == self@,
    {
        &self.0
    }
}

impl From<u64> for PayloadColumnSubnetId {
    fn from(x: u64) -> (result: Self) {
        PayloadColumnSubnetId(x)
    }
}

impl FromSpecImpl<u64> for PayloadColumnSubnetId {
    open spec fn obeys_from_spec() -> bool {
        true
    }

    closed spec fn from_spec(x: u64) -> Self {
        PayloadColumnSubnetId(x)
    }
}

impl From<PayloadColumnSubnetId> for u64 {
    fn from(val: PayloadColumnSubnetId) -> (result: u64) {
        val.0
    }
}

impl FromSpecImpl<PayloadColumnSubnetId> for u64 {
    open spec fn obeys_from_spec() -> bool {
        true
    }

    open spec fn from_spec(val: PayloadColumnSubnetId) -> u64 {
        val@
    }
}

impl From<&PayloadColumnSubnetId> for u64 {
    fn from(val: &PayloadColumnSubnetId) -> (result: u64) {
        val.0
    }
}

impl FromSpecImpl<&PayloadColumnSubnetId> for u64 {
    open spec fn obeys_from_spec() -> bool {
        true
    }

    open spec fn from_spec(val: &PayloadColumnSubnetId) -> u64 {
        val@
    }
}

/// All payload column subnets, in order. Every node subscribes to all of them.
pub fn all_payload_column_sidecar_subnets<E: EthSpec>() -> (result: Vec<PayloadColumnSubnetId>)
    ensures
        result@.len() == E::spec_number_of_columns(),
        forall|i: int| 0 <= i < result@.len() ==> (#[trigger] result@[i])@ == i,
{
    let mut subnets: Vec<PayloadColumnSubnetId> = Vec::new();
    let n: usize = E::number_of_columns();
    let mut i: usize = 0;
    while i < n
        invariant
            i <= n,
            n == E::spec_number_of_columns(),
            subnets@.len() == i,
            forall|j: int| 0 <= j < i ==> (#[trigger] subnets@[j])@ == j,
        decreases n - i,
    {
        subnets.push(PayloadColumnSubnetId::new(i as u64));
        i += 1;
    }
    subnets
}

/// Two subnets with the same number are the same subnet.
pub proof fn law_a_subnet_is_its_number(a: PayloadColumnSubnetId, b: PayloadColumnSubnetId)
    requires
        a@ == b@,
    ensures
        a == b,
{
}

/// Reading a number as a subnet and back gives the number, and a subnet's number read as a subnet
/// is that subnet.
pub proof fn law_subnet_conversions_round_trip(x: u64, id: PayloadColumnSubnetId)
    ensures
        <PayloadColumnSubnetId as FromSpec<u64>>::from_spec(x)@ == x,
        <u64 as FromSpec<PayloadColumnSubnetId>>::from_spec(
            <PayloadColumnSubnetId as FromSpec<u64>>::from_spec(x),
        ) == x,
        <PayloadColumnSubnetId as FromSpec<u64>>::from_spec(
            <u64 as FromSpec<PayloadColumnSubnetId>>::from_spec(id),
        ) == id,
{
}

} // verus!
