//! The erasure code of blobs: extending a blob into cells, and recovering all cells from some.
//!
//! The code doubles a blob: its first half is the blob itself, and any half of the cells determines
//! the rest. Extending a blob computes cells alone, neither KZG commitments nor proofs. Recovery
//! computes the KZG proofs of all cells beside them, and drops them.

use crate::eth_spec::{BYTES_PER_BLOB, BYTES_PER_CELL, BYTES_PER_FIELD_ELEMENT, CELLS_PER_EXT_BLOB};
use rust_eth_kzg::DASContext;
use vstd::prelude::*;

verus! {

/// The context that the erasure code is computed in, `rust_eth_kzg::DASContext`.
#[verifier::external_type_specification]
#[verifier::external_body]
pub struct ExDASContext(rust_eth_kzg::DASContext);

/// Why cells cannot be computed or recovered, `rust_eth_kzg::Error`.
#[verifier::external_type_specification]
#[verifier::external_body]
pub struct ExKzgError(rust_eth_kzg::Error);

/// The bytes of each vector of a sequence.
pub open spec fn bytes_of(vectors: Seq<Vec<u8>>) -> Seq<Seq<u8>> {
    Seq::new(vectors.len(), |i: int| vectors[i]@)
}

/// Appending a vector appends its bytes.
pub proof fn lemma_bytes_of_push(vectors: Seq<Vec<u8>>, last: Vec<u8>)
    ensures
        bytes_of(vectors.push(last)) == bytes_of(vectors).push(last@),
{
    assert(bytes_of(vectors.push(last)) =~= bytes_of(vectors).push(last@));
}

/// The order of the scalar field of BLS12-381.
pub open spec fn field_modulus() -> nat {
    0x73eda753299d7d483339d80809a1d80553bda402fffe5bfeffffffff00000001nat
}

/// The number that a byte string stands for, most significant byte first.
pub open spec fn big_endian(bytes: Seq<u8>) -> nat
    decreases bytes.len(),
{
    if bytes.len() == 0 {
        0
    } else {
        big_endian(bytes.drop_last()) * 256 + bytes.last() as nat
    }
}

/// Field element `i` of a byte string.
pub open spec fn field_element(bytes: Seq<u8>, i: int) -> Seq<u8> {
    bytes.subrange(i * BYTES_PER_FIELD_ELEMENT, (i + 1) * BYTES_PER_FIELD_ELEMENT)
}

/// Whether every field element of a byte string is a number below the field's order.
pub open spec fn canonical(bytes: Seq<u8>) -> bool {
    forall|i: int|
        0 <= i && (i + 1) * BYTES_PER_FIELD_ELEMENT <= bytes.len() ==> big_endian(
            #[trigger] field_element(bytes, i),
        ) < field_modulus()
}

/// Whether these are as many cells, of the size, that an extended blob has.
pub open spec fn row_shape(cells: Seq<Seq<u8>>) -> bool {
    &&& cells.len() == CELLS_PER_EXT_BLOB
    &&& forall|c: int| 0 <= c < cells.len() ==> (#[trigger] cells[c]).len() == BYTES_PER_CELL
}

/// Whether the first half of the cells holds the bytes of the blob, in order.
pub open spec fn systematic(blob: Seq<u8>, cells: Seq<Seq<u8>>) -> bool {
    forall|c: int, j: int|
        0 <= c < CELLS_PER_EXT_BLOB / 2 && 0 <= j < BYTES_PER_CELL ==> #[trigger] cells[c][j]
            == blob[c * BYTES_PER_CELL + j]
}

/// Whether cell indices are strictly ascending, in range and at least half of all.
pub open spec fn recoverable_indices(indices: Seq<u64>) -> bool {
    &&& indices.len() >= CELLS_PER_EXT_BLOB / 2
    &&& forall|k: int| 0 <= k < indices.len() ==> #[trigger] indices[k] < CELLS_PER_EXT_BLOB
    &&& forall|k: int, l: int| 0 <= k < l < indices.len() ==> indices[k] < indices[l]
}

/// Whether `picked` are the cells of `cells` at `indices`.
pub open spec fn picked_from(
    indices: Seq<u64>,
    picked: Seq<Seq<u8>>,
    cells: Seq<Seq<u8>>,
) -> bool {
    &&& picked.len() == indices.len()
    &&& forall|k: int| 0 <= k < indices.len() ==> #[trigger] picked[k] == cells[indices[k] as int]
}

/// Whether every selection of at least half of the cells recovers all of them.
pub open spec fn recoverable(cells: Seq<Seq<u8>>) -> bool {
    forall|indices: Seq<u64>, picked: Seq<Seq<u8>>|
        recoverable_indices(indices) && picked_from(indices, picked, cells)
            ==> #[trigger] recovered_cells(indices, picked) == Ok::<_, rust_eth_kzg::Error>(cells)
}

/// The bytes of the cells of a row, or the error in place of them.
pub open spec fn row_of(row: Result<Vec<Vec<u8>>, rust_eth_kzg::Error>) -> Result<
    Seq<Seq<u8>>,
    rust_eth_kzg::Error,
> {
    match row {
        Ok(cells) => Ok(bytes_of(cells@)),
        Err(e) => Err(e),
    }
}

/// The cells of the extension of a blob, as `rust_eth_kzg::DASContext::compute_cells` computes
/// them. They depend on the blob alone and not on the trusted setup of the context, which serves
/// commitments and proofs.
pub uninterp spec fn extended_cells(blob: Seq<u8>) -> Result<Seq<Seq<u8>>, rust_eth_kzg::Error>;

/// All cells of the row that some of its cells determine, as
/// `rust_eth_kzg::DASContext::recover_cells_and_kzg_proofs` computes them. They depend on the
/// indices and cells alone and not on the trusted setup of the context.
pub uninterp spec fn recovered_cells(indices: Seq<u64>, cells: Seq<Seq<u8>>) -> Result<
    Seq<Seq<u8>>,
    rust_eth_kzg::Error,
>;

/// Calls `rust_eth_kzg::DASContext::compute_cells`. The contract claims that it succeeds exactly on
/// blobs whose field elements are below the field's order, that the cells of a row have their fixed
/// number and size, that the code is systematic (the first half of the cells is the blob), and that
/// any half of the cells recovers the row.
#[verifier::external_body]
pub(crate) fn compute_cells(kzg: &DASContext, blob: &Vec<u8>) -> (result: Result<
    Vec<Vec<u8>>,
    rust_eth_kzg::Error,
>)
    requires
        blob@.len() == BYTES_PER_BLOB,
    ensures
        row_of(result) == extended_cells(blob@),
        result is Ok <==> canonical(blob@),
        result is Ok ==> row_shape(bytes_of(result->Ok_0@)),
        result is Ok ==> systematic(blob@, bytes_of(result->Ok_0@)),
        result is Ok ==> recoverable(bytes_of(result->Ok_0@)),
{
    let blob: &[u8; BYTES_PER_BLOB] = blob.as_slice().try_into().expect("blob length");
    kzg.compute_cells(blob).map(|cells| cells.iter().map(|cell| cell.to_vec()).collect())
}

/// Calls `rust_eth_kzg::DASContext::recover_cells_and_kzg_proofs` and keeps the cells. The contract
/// claims that the cells of a row have their fixed number and size, and that indices which are not
/// strictly ascending, in range and at least half of all are refused. When it succeeds beyond that
/// is said by [`compute_cells`] for the cells of an extended blob, and left open for others.
#[verifier::external_body]
pub(crate) fn recover_cells(
    kzg: &DASContext,
    indices: &Vec<u64>,
    cells: &Vec<Vec<u8>>,
) -> (result: Result<Vec<Vec<u8>>, rust_eth_kzg::Error>)
    requires
        forall|k: int| 0 <= k < cells@.len() ==> (#[trigger] cells@[k])@.len() == BYTES_PER_CELL,
    ensures
        row_of(result) == recovered_cells(indices@, bytes_of(cells@)),
        result is Ok ==> row_shape(bytes_of(result->Ok_0@)),
        result is Ok ==> recoverable_indices(indices@),
{
    let refs: Vec<&[u8; BYTES_PER_CELL]> = cells
        .iter()
        .map(|cell| cell.as_slice().try_into().expect("cell length"))
        .collect();
    kzg.recover_cells_and_kzg_proofs(indices.clone(), refs)
        .map(|(cells, _)| cells.iter().map(|cell| cell.to_vec()).collect())
}

} // verus!
