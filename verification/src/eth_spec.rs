//! The presets of the beacon chain, as far as payload columns depend on them.

use vstd::prelude::*;

verus! {

/// Bytes of a field element.
pub const BYTES_PER_FIELD_ELEMENT: usize = 32;

/// Field elements of a blob.
pub const FIELD_ELEMENTS_PER_BLOB: usize = 4096;

/// Bytes of a blob.
pub const BYTES_PER_BLOB: usize = 131072;

/// Bytes of a cell, 64 field elements.
pub const BYTES_PER_CELL: usize = 2048;

/// Cells of an extended blob, twice as many as the blob itself fills.
pub const CELLS_PER_EXT_BLOB: usize = 128;

/// The most blobs, and so the most rows of a payload column, of one block.
pub const MAX_BLOB_COMMITMENTS_PER_BLOCK: usize = 4096;

/// A preset of the beacon chain.
///
/// The presets differ in the length of an epoch. They share the geometry of blobs, cells and
/// columns, which [`EthSpec::shared_geometry`] pins down.
pub trait EthSpec: Sized {
    spec fn spec_slots_per_epoch() -> u64;

    spec fn spec_number_of_columns() -> usize;

    spec fn spec_field_elements_per_blob() -> usize;

    spec fn spec_bytes_per_blob() -> usize;

    spec fn spec_max_blob_commitments_per_block() -> usize;

    /// What every preset has in common.
    proof fn shared_geometry()
        ensures
            Self::spec_slots_per_epoch() > 0,
            Self::spec_number_of_columns() == CELLS_PER_EXT_BLOB,
            Self::spec_field_elements_per_blob() == FIELD_ELEMENTS_PER_BLOB,
            Self::spec_bytes_per_blob() == BYTES_PER_BLOB,
            Self::spec_max_blob_commitments_per_block() == MAX_BLOB_COMMITMENTS_PER_BLOCK,
    ;

    fn slots_per_epoch() -> (result: u64)
        ensures
            result == Self::spec_slots_per_epoch(),
    ;

    fn number_of_columns() -> (result: usize)
        ensures
            result == Self::spec_number_of_columns(),
    ;

    fn field_elements_per_blob() -> (result: usize)
        ensures
            result == Self::spec_field_elements_per_blob(),
    ;

    fn bytes_per_blob() -> (result: usize)
        ensures
            result == Self::spec_bytes_per_blob(),
    ;

    fn max_blob_commitments_per_block() -> (result: usize)
        ensures
            result == Self::spec_max_blob_commitments_per_block(),
    ;
}

/// The preset of the main network: 32 slots to an epoch.
#[derive(Clone, Copy, Debug)]
pub struct MainnetEthSpec;

/// The preset of small test networks: 8 slots to an epoch.
#[derive(Clone, Copy, Debug)]
pub struct MinimalEthSpec;

impl EthSpec for MainnetEthSpec {
    open spec fn spec_slots_per_epoch() -> u64 {
        32
    }

    open spec fn spec_number_of_columns() -> usize {
        CELLS_PER_EXT_BLOB
    }

    open spec fn spec_field_elements_per_blob() -> usize {
        FIELD_ELEMENTS_PER_BLOB
    }

    open spec fn spec_bytes_per_blob() -> usize {
        BYTES_PER_BLOB
    }

    open spec fn spec_max_blob_commitments_per_block() -> usize {
        MAX_BLOB_COMMITMENTS_PER_BLOCK
    }

    proof fn shared_geometry() {
    }

    fn slots_per_epoch() -> (result: u64) {
        32
    }

    fn number_of_columns() -> (result: usize) {
        CELLS_PER_EXT_BLOB
    }

    fn field_elements_per_blob() -> (result: usize) {
        FIELD_ELEMENTS_PER_BLOB
    }

    fn bytes_per_blob() -> (result: usize) {
        BYTES_PER_BLOB
    }

    fn max_blob_commitments_per_block() -> (result: usize) {
        MAX_BLOB_COMMITMENTS_PER_BLOCK
    }
}

impl EthSpec for MinimalEthSpec {
    open spec fn spec_slots_per_epoch() -> u64 {
        8
    }

    open spec fn spec_number_of_columns() -> usize {
        CELLS_PER_EXT_BLOB
    }

    open spec fn spec_field_elements_per_blob() -> usize {
        FIELD_ELEMENTS_PER_BLOB
    }

    open spec fn spec_bytes_per_blob() -> usize {
        BYTES_PER_BLOB
    }

    open spec fn spec_max_blob_commitments_per_block() -> usize {
        MAX_BLOB_COMMITMENTS_PER_BLOCK
    }

    proof fn shared_geometry() {
    }

    fn slots_per_epoch() -> (result: u64) {
        8
    }

    fn number_of_columns() -> (result: usize) {
        CELLS_PER_EXT_BLOB
    }

    fn field_elements_per_blob() -> (result: usize) {
        FIELD_ELEMENTS_PER_BLOB
    }

    fn bytes_per_blob() -> (result: usize) {
        BYTES_PER_BLOB
    }

    fn max_blob_commitments_per_block() -> (result: usize) {
        MAX_BLOB_COMMITMENTS_PER_BLOCK
    }
}

/// How the sizes fit together: a blob is its field elements, the cells of an extended blob are
/// twice the blob, and the columns are the leaves of a tree of seven levels.
pub proof fn law_geometry()
    ensures
        BYTES_PER_BLOB == FIELD_ELEMENTS_PER_BLOB * BYTES_PER_FIELD_ELEMENT,
        CELLS_PER_EXT_BLOB * BYTES_PER_CELL == 2 * BYTES_PER_BLOB,
        CELLS_PER_EXT_BLOB == 2 * 2 * 2 * 2 * 2 * 2 * 2,
        BYTES_PER_FIELD_ELEMENT == 32,
        FIELD_ELEMENTS_PER_BLOB == 4096,
        MAX_BLOB_COMMITMENTS_PER_BLOCK == 4096,
        MainnetEthSpec::spec_slots_per_epoch() == 32,
        MinimalEthSpec::spec_slots_per_epoch() == 8,
{
}

} // verus!
