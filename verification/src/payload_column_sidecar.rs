//! Payload column sidecars.
//!
//! The execution payload is erasure-coded into payload columns. The builder commits to them with a
//! Merkle root (`payload_columns_root`) carried in the signed execution bid, and each sidecar
//! carries a Merkle branch back to that root.

use crate::containers::{column_shape, PayloadColumn};
use crate::eth_spec::EthSpec;
use crate::kzg::bytes_of;
use crate::merkle_proof::{branch_verifies, root_from_branch, verify_merkle_proof};
use crate::primitives::{ColumnIndex, Epoch, Hash256, Slot};
use ssz_types::{FixedVector, VariableList};
use tree_hash::TreeHash;
use vstd::prelude::*;

verus! {

/// The depth of the Merkle tree over the payload column roots, the binary logarithm of the number
/// of columns.
pub const PAYLOAD_COLUMNS_INCLUSION_PROOF_DEPTH: usize = 7;

/// The SSZ hash tree root of a column, a list of up to as many byte vectors of the size of a cell
/// as a block has blobs, as `tree_hash::TreeHash::tree_hash_root` computes it.
pub uninterp spec fn column_tree_hash_root(cells: Seq<Seq<u8>>) -> Hash256;

/// Calls `tree_hash::TreeHash::tree_hash_root` on the column as a
/// `ssz_types::VariableList` of `ssz_types::FixedVector`. The contract claims that the root is a
/// function of the bytes of the cells, which it names [`column_tree_hash_root`].
#[verifier::external_body]
fn tree_hash_root(cells: &Vec<Vec<u8>>) -> (result: Hash256)
    requires
        column_shape(bytes_of(cells@)),
    ensures
        result == column_tree_hash_root(bytes_of(cells@)),
{
    let cells: Vec<FixedVector<u8, typenum::U2048>> = cells
        .iter()
        .map(|cell| FixedVector::new(cell.clone()).expect("cell length"))
        .collect();
    let column: VariableList<_, typenum::U4096> = VariableList::new(cells).expect("column length");
    column.tree_hash_root().0
}

/// The Merkle root of a column's cells.
pub fn column_root(column: &PayloadColumn) -> (result: Hash256)
    ensures
        result == column_tree_hash_root(column@),
{
    tree_hash_root(column.as_cells())
}

/// A payload column with its place, its commitment's branch and the block it belongs to.
#[derive(Debug, PartialEq, Eq)]
pub struct PayloadColumnSidecar {
    pub index: ColumnIndex,
    pub column: PayloadColumn,
    /// Proves the column's root at position `index` under the bid's `payload_columns_root`.
    pub column_inclusion_proof: [Hash256; PAYLOAD_COLUMNS_INCLUSION_PROOF_DEPTH],
    pub slot: Slot,
    pub beacon_block_root: Hash256,
}

/// What a [`PayloadColumnSidecar`] holds.
#[verifier::ext_equal]
pub struct SidecarView {
    pub index: ColumnIndex,
    pub column: Seq<Seq<u8>>,
    pub column_inclusion_proof: Seq<Hash256>,
    pub slot: Slot,
    pub beacon_block_root: Hash256,
}

impl View for PayloadColumnSidecar {
    type V = SidecarView;

    open spec fn view(&self) -> SidecarView {
        SidecarView {
            index: self.index,
            column: self.column@,
            column_inclusion_proof: self.column_inclusion_proof@,
            slot: self.slot,
            beacon_block_root: self.beacon_block_root,
        }
    }
}

impl SidecarView {
    /// Whether the column is proved to lie at its index under `payload_columns_root`.
    pub open spec fn included_under(self, payload_columns_root: Hash256) -> bool {
        branch_verifies(
            column_tree_hash_root(self.column),
            self.column_inclusion_proof,
            PAYLOAD_COLUMNS_INCLUSION_PROOF_DEPTH as nat,
            self.index as nat,
            payload_columns_root,
        )
    }
}

/// What each sidecar of a sequence holds.
pub open spec fn sidecars_of(sidecars: Seq<PayloadColumnSidecar>) -> Seq<SidecarView> {
    Seq::new(sidecars.len(), |i: int| sidecars[i]@)
}

impl PayloadColumnSidecar {
    /// The epoch of the column's slot.
    pub fn epoch<E: EthSpec>(&self) -> (result: Epoch)
        ensures
            result == self.slot.spec_epoch(E::spec_slots_per_epoch()),
            result.0 * E::spec_slots_per_epoch() <= self.slot.0,
            self.slot.0 < (result.0 + 1) * E::spec_slots_per_epoch(),
    {
        proof {
            E::shared_geometry();
        }
        self.slot.epoch(E::slots_per_epoch())
    }

    /// The Merkle root of this column's cells, which is the leaf committed to by
    /// `payload_columns_root`.
    pub fn column_root(&self) -> (result: Hash256)
        ensures
            result == column_tree_hash_root(self.column@),
    {
        column_root(&self.column)
    }

    /// Verifies this column's inclusion under the `payload_columns_root` committed to by the
    /// builder in the signed execution bid.
    pub fn verify_inclusion_proof(&self, payload_columns_root: Hash256) -> (result: bool)
        ensures
            result == self@.included_under(payload_columns_root),
            result == (root_from_branch(
                column_tree_hash_root(self.column@),
                self.column_inclusion_proof@,
                self.index as nat,
            ) == payload_columns_root),
    {
        verify_merkle_proof(
            self.column_root(),
            &self.column_inclusion_proof,
            PAYLOAD_COLUMNS_INCLUSION_PROOF_DEPTH,
            self.index,
            payload_columns_root,
        )
    }
}

impl Clone for PayloadColumnSidecar {
    fn clone(&self) -> (result: PayloadColumnSidecar)
        ensures
            result@ == self@,
    {
        PayloadColumnSidecar {
            index: self.index,
            column: self.column.clone(),
            column_inclusion_proof: self.column_inclusion_proof,
            slot: self.slot,
            beacon_block_root: self.beacon_block_root,
        }
    }
}

/// What a sidecar is seen to hold is what it holds.
pub proof fn law_a_sidecar_holds_its_fields(sidecar: PayloadColumnSidecar)
    ensures
        sidecar@.index == sidecar.index,
        sidecar@.column == sidecar.column@,
        sidecar@.column_inclusion_proof == sidecar.column_inclusion_proof@,
        sidecar@.column_inclusion_proof.len() == 7,
        sidecar@.slot == sidecar.slot,
        sidecar@.beacon_block_root == sidecar.beacon_block_root,
{
}

/// A column is included under one root at most: the one that its seven siblings lead to from the
/// root of its cells, at its index.
pub proof fn law_a_column_is_included_under_one_root(sidecar: SidecarView, root: Hash256)
    requires
        sidecar.column_inclusion_proof.len() == 7,
    ensures
        sidecar.included_under(root) <==> root == root_from_branch(
            column_tree_hash_root(sidecar.column),
            sidecar.column_inclusion_proof,
            sidecar.index as nat,
        ),
{
}

} // verus!
