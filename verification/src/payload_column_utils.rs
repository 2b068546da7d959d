//! Commitment and recovery of payload columns.
//!
//! The blobs of a payload are erasure-coded, row by row, and sliced into columns. Any half of the
//! columns is enough to recover the payload. The columns are not KZG-committed: the builder commits
//! to them with a Merkle tree of two levels. The cells of a column hash to a column root, and the
//! column roots hash to `payload_columns_root`.

use crate::column_selection::count_distinct;
use crate::containers::{blobs_of, copy_bytes, Blob, PayloadColumn};
use crate::error::{ErrorView, PayloadColumnError};
use crate::eth_spec::{
    EthSpec, BYTES_PER_BLOB, BYTES_PER_CELL, CELLS_PER_EXT_BLOB, MAX_BLOB_COMMITMENTS_PER_BLOCK,
};
use crate::kzg::{
    bytes_of, canonical, compute_cells, extended_cells, lemma_bytes_of_push, picked_from,
    recover_cells, recoverable, recoverable_indices, recovered_cells, row_of, row_shape, systematic,
};
use crate::merkle_proof::{
    branch, law_every_leaf_verifies, law_tree_opens_everywhere, lemma_branch_len, tree_root,
    MerkleTree,
};
use crate::payload_codec::{
    data_decoded, data_result, decode_fields, decoded_blobs, encoded_blobs, framed,
    law_blobs_round_trip, law_packed_blob_is_canonical, payload_data_to_blobs, unpack_blobs,
    DataView, EncodedPayloadData, PayloadColumnData,
};
use crate::payload_column_sidecar::{
    column_root, column_tree_hash_root, sidecars_of, PayloadColumnSidecar, SidecarView,
    PAYLOAD_COLUMNS_INCLUSION_PROOF_DEPTH,
};
use crate::primitives::{Hash256, Slot, ZERO_ROOT};
use crate::text::{decimal, with_decimal};
use rust_eth_kzg::DASContext;
use vstd::prelude::*;

verus! {

/// The cells of each row of a sequence.
pub open spec fn rows_of(rows: Seq<Vec<Vec<u8>>>) -> Seq<Seq<Seq<u8>>> {
    Seq::new(rows.len(), |r: int| bytes_of(rows[r]@))
}

/// The cells of each column of a sequence.
pub open spec fn columns_of(columns: Seq<PayloadColumn>) -> Seq<Seq<Seq<u8>>> {
    Seq::new(columns.len(), |c: int| columns[c]@)
}

/// Column `c` of rows of cells.
pub open spec fn column_at(rows: Seq<Seq<Seq<u8>>>, c: int) -> Seq<Seq<u8>> {
    Seq::new(rows.len(), |r: int| rows[r][c])
}

/// The columns of rows of cells.
pub open spec fn transposed(rows: Seq<Seq<Seq<u8>>>) -> Seq<Seq<Seq<u8>>> {
    Seq::new(CELLS_PER_EXT_BLOB as nat, |c: int| column_at(rows, c))
}

/// The roots of columns, which are the leaves of the tree that the builder commits to.
pub open spec fn column_roots(columns: Seq<Seq<Seq<u8>>>) -> Seq<Hash256> {
    Seq::new(columns.len(), |c: int| column_tree_hash_root(columns[c]))
}

/// The root that commits to columns.
pub open spec fn columns_root(columns: Seq<Seq<Seq<u8>>>) -> Hash256 {
    tree_root(column_roots(columns), PAYLOAD_COLUMNS_INCLUSION_PROOF_DEPTH as nat)
}

/// The sidecar of column `c` of the given columns, with its branch.
pub open spec fn sidecar_at(
    columns: Seq<Seq<Seq<u8>>>,
    c: int,
    beacon_block_root: Hash256,
    slot: Slot,
) -> SidecarView {
    SidecarView {
        index: c as u64,
        column: columns[c],
        column_inclusion_proof: branch(
            column_roots(columns),
            PAYLOAD_COLUMNS_INCLUSION_PROOF_DEPTH as nat,
            c as nat,
        ),
        slot,
        beacon_block_root,
    }
}

/// The sidecars of columns, in order.
pub open spec fn built_sidecars(
    columns: Seq<Seq<Seq<u8>>>,
    beacon_block_root: Hash256,
    slot: Slot,
) -> Seq<SidecarView> {
    Seq::new(columns.len(), |c: int| sidecar_at(columns, c, beacon_block_root, slot))
}

/// The error for more rows than the blobs of one block.
pub open spec fn too_many_rows(rows: nat) -> ErrorView {
    ErrorView::Internal(
        "MaxBlobCommitmentsPerBlock: OutOfBounds { i: "@ + decimal(rows) + ", len: 4096 }"@,
    )
}

/// Turns the cells of each row into the cells of each column.
pub fn transpose_rows_into_columns<E: EthSpec>(rows: &Vec<Vec<Vec<u8>>>) -> (result: Result<
    Vec<PayloadColumn>,
    PayloadColumnError,
>)
    requires
        forall|r: int| 0 <= r < rows@.len() ==> row_shape(#[trigger] rows_of(rows@)[r]),
    ensures
        rows@.len() <= MAX_BLOB_COMMITMENTS_PER_BLOCK ==> result is Ok && columns_of(
            result->Ok_0@,
        ) == transposed(rows_of(rows@)),
        rows@.len() > MAX_BLOB_COMMITMENTS_PER_BLOCK ==> result is Err && result->Err_0@
            == too_many_rows(rows@.len()),
        // Cell c of row r becomes cell r of column c.
        rows@.len() <= 4096 ==> result is Ok && result->Ok_0@.len() == 128,
        rows@.len() <= 4096 ==> forall|c: int|
            0 <= c < 128 ==> (#[trigger] result->Ok_0@[c])@.len() == rows@.len(),
        rows@.len() <= 4096 ==> forall|c: int, r: int|
            0 <= c < 128 && 0 <= r < rows@.len() ==> #[trigger] result->Ok_0@[c]@[r]
                == rows@[r]@[c]@,
{
    let ghost all = rows_of(rows@);
    proof {
        E::shared_geometry();
    }
    let number_of_columns: usize = E::number_of_columns();
    let mut columns: Vec<PayloadColumn> = Vec::new();
    let mut c: usize = 0;
    while c < number_of_columns
        invariant
            c <= number_of_columns == CELLS_PER_EXT_BLOB,
            all == rows_of(rows@),
            forall|r: int| 0 <= r < rows@.len() ==> row_shape(#[trigger] all[r]),
            columns@.len() == c,
            forall|d: int| 0 <= d < c ==> (#[trigger] columns@[d])@ == column_at(all, d),
            c > 0 ==> rows@.len() <= MAX_BLOB_COMMITMENTS_PER_BLOCK,
        decreases number_of_columns - c,
    {
        let cells = cells_at(rows, c);
        assert forall|r: int| 0 <= r < column_at(all, c as int).len() implies (
        #[trigger] column_at(all, c as int)[r]).len() == BYTES_PER_CELL by {
            assert(row_shape(all[r]));
        }
        match PayloadColumn::new(cells) {
            Ok(column) => columns.push(column),
            Err(_) => {
                return Err(
                    PayloadColumnError::Internal(
                        with_decimal(
                            "MaxBlobCommitmentsPerBlock: OutOfBounds { i: ",
                            rows.len() as u64,
                            ", len: 4096 }",
                        ),
                    ),
                );
            },
        }
        c += 1;
    }
    assert(columns_of(columns@) =~= transposed(all));
    Ok(columns)
}

/// Copies the cells of one column out of rows.
fn cells_at(rows: &Vec<Vec<Vec<u8>>>, c: usize) -> (result: Vec<Vec<u8>>)
    requires
        c < CELLS_PER_EXT_BLOB,
        forall|r: int| 0 <= r < rows@.len() ==> row_shape(#[trigger] rows_of(rows@)[r]),
    ensures
        bytes_of(result@) == column_at(rows_of(rows@), c as int),
{
    let ghost all = rows_of(rows@);
    let mut cells: Vec<Vec<u8>> = Vec::new();
    let mut r: usize = 0;
    while r < rows.len()
        invariant
            c < CELLS_PER_EXT_BLOB,
            r <= rows@.len(),
            all == rows_of(rows@),
            forall|s: int| 0 <= s < rows@.len() ==> row_shape(#[trigger] all[s]),
            bytes_of(cells@) == column_at(all, c as int).take(r as int),
        decreases rows@.len() - r,
    {
        assert(row_shape(all[r as int]));
        let cell = copy_bytes(&rows[r][c]);
        proof {
            lemma_bytes_of_push(cells@, cell);
            assert(cell@ == all[r as int][c as int]);
            assert(column_at(all, c as int).take(r as int).push(cell@) =~= column_at(
                all,
                c as int,
            ).take(r + 1));
        }
        cells.push(cell);
        r += 1;
    }
    assert(column_at(all, c as int).take(r as int) =~= column_at(all, c as int));
    cells
}

/// Slices rows of cells into columns, and builds the sidecars of the columns.
pub fn build_sidecars_from_rows<E: EthSpec>(
    rows: &Vec<Vec<Vec<u8>>>,
    beacon_block_root: Hash256,
    slot: Slot,
) -> (result: Result<(Vec<PayloadColumnSidecar>, Hash256), PayloadColumnError>)
    requires
        forall|r: int| 0 <= r < rows@.len() ==> row_shape(#[trigger] rows_of(rows@)[r]),
    ensures
        build_result(result) == (if rows@.len() <= MAX_BLOB_COMMITMENTS_PER_BLOCK {
            Ok::<(Seq<SidecarView>, Hash256), ErrorView>(
                (
                    built_sidecars(transposed(rows_of(rows@)), beacon_block_root, slot),
                    columns_root(transposed(rows_of(rows@))),
                ),
            )
        } else {
            Err::<(Seq<SidecarView>, Hash256), ErrorView>(too_many_rows(rows@.len()))
        }),
        rows@.len() <= 4096 ==> result is Ok && result->Ok_0.0@.len() == 128,
        rows@.len() > 4096 ==> result is Err,
        rows@.len() <= 4096 ==> forall|c: int|
            0 <= c < 128 ==> {
                let sidecar = #[trigger] result->Ok_0.0@[c];
                &&& sidecar.index == c
                &&& sidecar.slot == slot
                &&& sidecar.beacon_block_root == beacon_block_root
                &&& sidecar.column@.len() == rows@.len()
                &&& sidecar@.included_under(result->Ok_0.1)
            },
        rows@.len() <= 4096 ==> forall|c: int, r: int|
            0 <= c < 128 && 0 <= r < rows@.len() ==> #[trigger] result->Ok_0.0@[c].column@[r]
                == rows@[r]@[c]@,
{
    match transpose_rows_into_columns::<E>(rows) {
        Ok(columns) => {
            assert(columns@.len() == columns_of(columns@).len());
            build_sidecars_from_columns(columns, beacon_block_root, slot)
        },
        Err(e) => Err(e),
    }
}

/// What building sidecars returned: what they hold and their root, or what the error says.
pub open spec fn build_result(
    result: Result<(Vec<PayloadColumnSidecar>, Hash256), PayloadColumnError>,
) -> Result<(Seq<SidecarView>, Hash256), ErrorView> {
    match result {
        Ok((sidecars, root)) => Ok((sidecars_of(sidecars@), root)),
        Err(e) => Err(e@),
    }
}

/// Builds the Merkle commitment over `columns` and attaches an inclusion proof to each.
pub fn build_sidecars_from_columns(
    columns: Vec<PayloadColumn>,
    beacon_block_root: Hash256,
    slot: Slot,
) -> (result: Result<(Vec<PayloadColumnSidecar>, Hash256), PayloadColumnError>)
    requires
        columns@.len() <= CELLS_PER_EXT_BLOB,
    ensures
        build_result(result) == Ok::<_, ErrorView>(
            (
                built_sidecars(columns_of(columns@), beacon_block_root, slot),
                columns_root(columns_of(columns@)),
            ),
        ),
        // Each column gets a sidecar at its place, which verifies under the root of the tree of
        // column roots.
        result is Ok,
        result->Ok_0.0@.len() == columns@.len(),
        forall|c: int|
            0 <= c < columns@.len() ==> {
                let sidecar = #[trigger] result->Ok_0.0@[c];
                &&& sidecar.index == c
                &&& sidecar.slot == slot
                &&& sidecar.beacon_block_root == beacon_block_root
                &&& sidecar.column@ == columns@[c]@
                &&& sidecar@.included_under(result->Ok_0.1)
            },
        result->Ok_0.1 == tree_root(
            Seq::new(columns@.len(), |c: int| column_tree_hash_root(columns@[c]@)),
            7,
        ),
{
    let ghost all = columns_of(columns@);
    let ghost depth = PAYLOAD_COLUMNS_INCLUSION_PROOF_DEPTH as nat;
    let leaves = roots_of(&columns);
    proof {
        vstd::arithmetic::power2::lemma2_to64();
    }
    let tree = MerkleTree::create(&leaves, PAYLOAD_COLUMNS_INCLUSION_PROOF_DEPTH);
    let payload_columns_root = tree.hash();

    let mut sidecars: Vec<PayloadColumnSidecar> = Vec::new();
    let mut index: usize = 0;
    while index < columns.len()
        invariant
            index <= columns@.len() <= CELLS_PER_EXT_BLOB,
            all == columns_of(columns@),
            leaves@ == column_roots(all),
            depth == PAYLOAD_COLUMNS_INCLUSION_PROOF_DEPTH,
            tree.represents(leaves@, depth),
            sidecars@.len() == index,
            forall|c: int|
                0 <= c < index ==> (#[trigger] sidecars@[c])@ == sidecar_at(
                    all,
                    c,
                    beacon_block_root,
                    slot,
                ),
        decreases columns@.len() - index,
    {
        proof {
            law_tree_opens_everywhere(tree, leaves@, depth, index as nat);
        }
        let proof_nodes = match tree.generate_proof(
            index as u64,
            PAYLOAD_COLUMNS_INCLUSION_PROOF_DEPTH,
        ) {
            Ok((_, proof_nodes)) => proof_nodes,
            Err(e) => return Err(PayloadColumnError::from(e)),
        };
        proof {
            lemma_branch_len(leaves@, depth, index as nat);
        }
        let column_inclusion_proof: [Hash256; PAYLOAD_COLUMNS_INCLUSION_PROOF_DEPTH] = [
            proof_nodes[0],
            proof_nodes[1],
            proof_nodes[2],
            proof_nodes[3],
            proof_nodes[4],
            proof_nodes[5],
            proof_nodes[6],
        ];
        assert(column_inclusion_proof@ =~= branch(leaves@, depth, index as nat));
        sidecars.push(
            PayloadColumnSidecar {
                index: index as u64,
                column: columns[index].clone(),
                column_inclusion_proof,
                slot,
                beacon_block_root,
            },
        );
        index += 1;
    }
    assert(sidecars_of(sidecars@) =~= built_sidecars(all, beacon_block_root, slot));
    proof {
        assert(column_roots(all) =~= Seq::new(
            columns@.len(),
            |c: int| column_tree_hash_root(columns@[c]@),
        ));
        assert forall|c: int| 0 <= c < columns@.len() implies {
            let sidecar = #[trigger] sidecars@[c];
            &&& sidecar.index == c
            &&& sidecar.slot == slot
            &&& sidecar.beacon_block_root == beacon_block_root
            &&& sidecar.column@ == columns@[c]@
            &&& sidecar@.included_under(payload_columns_root)
        } by {
            law_built_sidecars_verify(all, beacon_block_root, slot, c);
            assert(sidecars@[c]@ == sidecar_at(all, c, beacon_block_root, slot));
        }
    }
    Ok((sidecars, payload_columns_root))
}

/// Hashes each column to its root.
fn roots_of(columns: &Vec<PayloadColumn>) -> (result: Vec<Hash256>)
    ensures
        result@ == column_roots(columns_of(columns@)),
{
    let mut roots: Vec<Hash256> = Vec::new();
    let mut c: usize = 0;
    while c < columns.len()
        invariant
            c <= columns@.len(),
            roots@ == column_roots(columns_of(columns@)).take(c as int),
        decreases columns@.len() - c,
    {
        roots.push(column_root(&columns[c]));
        assert(roots@ =~= column_roots(columns_of(columns@)).take(c + 1));
        c += 1;
    }
    assert(roots@ =~= column_roots(columns_of(columns@)));
    roots
}

/// The rows of cells that blobs extend to.
pub open spec fn extended_rows(blobs: Seq<Seq<u8>>) -> Seq<Seq<Seq<u8>>> {
    Seq::new(blobs.len(), |r: int| extended_cells(blobs[r])->Ok_0)
}

/// The columns that a payload extends to, or why there are none.
pub open spec fn payload_columns(data: DataView) -> Result<Seq<Seq<Seq<u8>>>, ErrorView> {
    match encoded_blobs(data) {
        Ok(blobs) => Ok(transposed(extended_rows(blobs))),
        Err(e) => Err(e),
    }
}

/// The root that commits to a payload, or why there is none.
pub open spec fn payload_columns_root(data: DataView) -> Result<Hash256, ErrorView> {
    match payload_columns(data) {
        Ok(columns) => Ok(columns_root(columns)),
        Err(e) => Err(e),
    }
}

/// The sidecars of a payload and the root that commits to it, or why there are none.
pub open spec fn payload_sidecars(data: DataView, beacon_block_root: Hash256, slot: Slot) -> Result<
    (Seq<SidecarView>, Hash256),
    ErrorView,
> {
    match payload_columns(data) {
        Ok(columns) => Ok(
            (built_sidecars(columns, beacon_block_root, slot), columns_root(columns)),
        ),
        Err(e) => Err(e),
    }
}

/// Whether a row of cells is the extension of a blob: of its fixed shape, with the blob in its
/// first half, and recoverable from any half of its cells.
pub open spec fn is_extension(blob: Seq<u8>, row: Seq<Seq<u8>>) -> bool {
    &&& row_shape(row)
    &&& systematic(blob, row)
    &&& recoverable(row)
}

/// Whether each row of cells is the extension of the blob at its place.
pub open spec fn are_extensions(blobs: Seq<Seq<u8>>, rows: Seq<Seq<Seq<u8>>>) -> bool {
    &&& rows.len() == blobs.len()
    &&& forall|r: int| 0 <= r < rows.len() ==> is_extension(blobs[r], #[trigger] rows[r])
}

/// Extends a blob to its row of cells. Rows are independent of each other.
pub fn extend_blob(blob: &Blob, kzg: &DASContext) -> (result: Result<
    Vec<Vec<u8>>,
    rust_eth_kzg::Error,
>)
    ensures
        row_of(result) == extended_cells(blob@),
        result is Ok <==> canonical(blob@),
        result is Ok ==> is_extension(blob@, bytes_of(result->Ok_0@)),
{
    compute_cells(kzg, blob.as_bytes())
}

/// Extends each blob to its row of cells.
fn extend_blobs(blobs: &Vec<Blob>, kzg: &DASContext) -> (result: Result<
    Vec<Vec<Vec<u8>>>,
    rust_eth_kzg::Error,
>)
    requires
        forall|r: int| 0 <= r < blobs@.len() ==> canonical(#[trigger] blobs_of(blobs@)[r]),
    ensures
        result is Ok,
        rows_of(result->Ok_0@) == extended_rows(blobs_of(blobs@)),
        are_extensions(blobs_of(blobs@), rows_of(result->Ok_0@)),
{
    let ghost all = blobs_of(blobs@);
    let mut rows: Vec<Vec<Vec<u8>>> = Vec::new();
    let mut r: usize = 0;
    while r < blobs.len()
        invariant
            r <= blobs@.len(),
            all == blobs_of(blobs@),
            forall|s: int| 0 <= s < blobs@.len() ==> canonical(#[trigger] all[s]),
            rows@.len() == r,
            forall|s: int|
                0 <= s < r ==> {
                    &&& bytes_of((#[trigger] rows@[s])@) == extended_cells(all[s])->Ok_0
                    &&& is_extension(all[s], bytes_of(rows@[s]@))
                },
        decreases blobs@.len() - r,
    {
        assert(canonical(all[r as int]));
        match extend_blob(&blobs[r], kzg) {
            Ok(cells) => rows.push(cells),
            Err(e) => return Err(e),
        }
        r += 1;
    }
    assert(rows_of(rows@) =~= extended_rows(all));
    Ok(rows)
}

/// Erasure-codes `data` and returns one sidecar per column, and the `payload_columns_root` that the
/// builder places in its bid.
///
/// Each sidecar verifies against that root, any half of the sidecars recovers all of them, and all
/// of them decode to `data`.
pub fn build_payload_column_sidecars<E: EthSpec>(
    data: &EncodedPayloadData,
    beacon_block_root: Hash256,
    slot: Slot,
    kzg: &DASContext,
) -> (result: Result<(Vec<PayloadColumnSidecar>, Hash256), PayloadColumnError>)
    ensures
        build_result(result) == payload_sidecars(data@, beacon_block_root, slot),
        result is Ok <==> encoded_blobs(data@) is Ok,
        result is Ok ==> result->Ok_0.0@.len() == CELLS_PER_EXT_BLOB,
        result is Ok ==> forall|c: int|
            0 <= c < result->Ok_0.0@.len() ==> (
            #[trigger] result->Ok_0.0@[c])@.included_under(result->Ok_0.1),
        result is Ok ==> forall|some: Seq<SidecarView>|
            selected_from(some, sidecars_of(result->Ok_0.0@)) ==> #[trigger] recovered_sidecars(
                some,
            ) == Ok::<_, ErrorView>(sidecars_of(result->Ok_0.0@)),
        result is Ok ==> decoded_columns(sidecars_of(result->Ok_0.0@)) == Ok::<_, ErrorView>(
            data@,
        ),
        // Every payload that fits in the blobs of one block is coded, into columns with one cell
        // for each blob that it takes.
        result is Ok <==> {
            &&& 8 + data.payload@.len() + data.execution_requests@.len() <= u32::MAX
            &&& 12 + data.payload@.len() + data.execution_requests@.len() <= 4096 * 126976
        },
        result is Ok ==> forall|c: int|
            0 <= c < 128 ==> {
                let sidecar = #[trigger] result->Ok_0.0@[c];
                let len = 12 + data.payload@.len() + data.execution_requests@.len();
                &&& sidecar.index == c
                &&& sidecar.slot == slot
                &&& sidecar.beacon_block_root == beacon_block_root
                &&& (sidecar.column@.len() - 1) * 126976 < len <= sidecar.column@.len() * 126976
            },
{
    let blobs = match payload_data_to_blobs::<E>(data) {
        Ok(blobs) => blobs,
        Err(e) => return Err(e),
    };
    let ghost all = blobs_of(blobs@);
    proof {
        assert forall|r: int| 0 <= r < all.len() implies canonical(#[trigger] all[r]) by {
            law_packed_blob_is_canonical(framed(data@), r);
        }
    }
    let rows = match extend_blobs(&blobs, kzg) {
        Ok(rows) => rows,
        Err(e) => return Err(PayloadColumnError::from(e)),
    };
    let ghost cells = rows_of(rows@);
    let ghost built = built_sidecars(transposed(cells), beacon_block_root, slot);
    proof {
        assert forall|c: int| 0 <= c < built.len() implies (#[trigger] built[c]).included_under(
            columns_root(transposed(cells)),
        ) by {
            law_built_sidecars_verify(transposed(cells), beacon_block_root, slot, c);
        }
        assert forall|some: Seq<SidecarView>| selected_from(some, built) implies
            #[trigger] recovered_sidecars(some) == Ok::<_, ErrorView>(built) by {
            law_any_half_recovers(all, cells, beacon_block_root, slot, some);
        }
        law_columns_hold_the_blobs(all, cells, beacon_block_root, slot);
        law_blobs_round_trip(data@);
    }
    let result = build_sidecars_from_rows::<E>(&rows, beacon_block_root, slot);
    assert forall|c: int| result is Ok && 0 <= c < result->Ok_0.0@.len() implies (
    #[trigger] result->Ok_0.0@[c])@.included_under(result->Ok_0.1) by {
        assert(result->Ok_0.0@[c]@ == built[c]);
    }
    result
}

/// Computes the `payload_columns_root` of `data`, for the builder at bid time and to bind an
/// envelope to its signed bid.
pub fn compute_payload_columns_root<E: EthSpec>(
    data: &EncodedPayloadData,
    kzg: &DASContext,
) -> (result: Result<Hash256, PayloadColumnError>)
    ensures
        root_result(result) == payload_columns_root(data@),
        result is Ok <==> {
            &&& 8 + data.payload@.len() + data.execution_requests@.len() <= u32::MAX
            &&& 12 + data.payload@.len() + data.execution_requests@.len() <= 4096 * 126976
        },
{
    match build_payload_column_sidecars::<E>(data, ZERO_ROOT, Slot::new(0), kzg) {
        Ok((_, root)) => Ok(root),
        Err(e) => Err(e),
    }
}

/// What computing a root returned.
pub open spec fn root_result(result: Result<Hash256, PayloadColumnError>) -> Result<
    Hash256,
    ErrorView,
> {
    match result {
        Ok(root) => Ok(root),
        Err(e) => Err(e@),
    }
}

/// The indices of sidecars.
pub open spec fn indices_of(sidecars: Seq<SidecarView>) -> Seq<u64> {
    Seq::new(sidecars.len(), |k: int| sidecars[k].index)
}

/// The cells of sidecars in row `r`.
pub open spec fn row_cells(sidecars: Seq<SidecarView>, r: int) -> Seq<Seq<u8>> {
    Seq::new(sidecars.len(), |k: int| sidecars[k].column[r])
}

/// Whether all columns have as many cells as the first.
pub open spec fn equally_long(sidecars: Seq<SidecarView>) -> bool {
    forall|k: int|
        0 <= k < sidecars.len() ==> (#[trigger] sidecars[k]).column.len()
            == sidecars[0].column.len()
}

/// The first `n` rows that sidecars determine, or the error of the first row that they do not.
pub open spec fn recovered_rows(sidecars: Seq<SidecarView>, n: nat) -> Result<
    Seq<Seq<Seq<u8>>>,
    rust_eth_kzg::Error,
>
    decreases n,
{
    if n == 0 {
        Ok(Seq::empty())
    } else {
        match recovered_rows(sidecars, (n - 1) as nat) {
            Ok(rows) => match recovered_cells(indices_of(sidecars), row_cells(sidecars, n - 1)) {
                Ok(cells) => Ok(rows.push(cells)),
                Err(e) => Err(e),
            },
            Err(e) => Err(e),
        }
    }
}

/// How many distinct columns sidecars hold.
pub open spec fn distinct_columns(sidecars: Seq<SidecarView>) -> nat {
    indices_of(sidecars).to_set().len()
}

/// All sidecars of the payload that some sidecars belong to, or why they do not determine it. A
/// column that is there twice counts once.
pub open spec fn recovered_sidecars(sidecars: Seq<SidecarView>) -> Result<
    Seq<SidecarView>,
    ErrorView,
> {
    let required = CELLS_PER_EXT_BLOB / 2;
    let supplied = distinct_columns(sidecars);
    if supplied < required {
        Err(ErrorView::InsufficientColumns { supplied: supplied as usize, required })
    } else if !equally_long(sidecars) {
        Err(ErrorView::InconsistentColumnLengths)
    } else {
        match recovered_rows(sidecars, sidecars[0].column.len()) {
            Ok(rows) => Ok(
                built_sidecars(
                    transposed(rows),
                    sidecars[0].beacon_block_root,
                    sidecars[0].slot,
                ),
            ),
            Err(e) => Err(ErrorView::Kzg(e)),
        }
    }
}

/// Whether `some` are at least half of the sidecars `all`, in ascending order of their indices.
pub open spec fn selected_from(some: Seq<SidecarView>, all: Seq<SidecarView>) -> bool {
    &&& recoverable_indices(indices_of(some))
    &&& forall|k: int|
        0 <= k < some.len() ==> (#[trigger] some[k]) == all[indices_of(some)[k] as int]
}

/// Each sidecar verifies against the root of the columns that it was built from.
pub proof fn law_built_sidecars_verify(
    columns: Seq<Seq<Seq<u8>>>,
    beacon_block_root: Hash256,
    slot: Slot,
    c: int,
)
    requires
        0 <= c < columns.len() <= CELLS_PER_EXT_BLOB,
    ensures
        built_sidecars(columns, beacon_block_root, slot)[c].included_under(columns_root(columns)),
{
    vstd::arithmetic::power2::lemma2_to64();
    law_every_leaf_verifies(
        column_roots(columns),
        PAYLOAD_COLUMNS_INCLUSION_PROOF_DEPTH as nat,
        c as nat,
    );
}

/// Any half of the sidecars of a payload, in ascending order, recovers all of them.
pub proof fn law_any_half_recovers(
    blobs: Seq<Seq<u8>>,
    rows: Seq<Seq<Seq<u8>>>,
    beacon_block_root: Hash256,
    slot: Slot,
    some: Seq<SidecarView>,
)
    requires
        are_extensions(blobs, rows),
        selected_from(some, built_sidecars(transposed(rows), beacon_block_root, slot)),
    ensures
        recovered_sidecars(some) == Ok::<_, ErrorView>(
            built_sidecars(transposed(rows), beacon_block_root, slot),
        ),
{
    let all = built_sidecars(transposed(rows), beacon_block_root, slot);
    let indices = indices_of(some);
    assert forall|k: int| 0 <= k < some.len() implies (#[trigger] some[k]).column == column_at(
        rows,
        indices[k] as int,
    ) && some[k].beacon_block_root == beacon_block_root && some[k].slot == slot by {
        assert(indices[k] < CELLS_PER_EXT_BLOB);
        assert(some[k] == all[indices[k] as int]);
    }
    assert(indices.no_duplicates());
    indices.unique_seq_to_set();
    lemma_rows_recover(blobs, rows, some, rows.len());
    assert(rows.take(rows.len() as int) =~= rows);
    assert(some[0].column.len() == rows.len());
}

/// The first `n` rows of a payload are recovered from any half of its columns.
proof fn lemma_rows_recover(
    blobs: Seq<Seq<u8>>,
    rows: Seq<Seq<Seq<u8>>>,
    some: Seq<SidecarView>,
    n: nat,
)
    requires
        n <= rows.len(),
        are_extensions(blobs, rows),
        recoverable_indices(indices_of(some)),
        forall|k: int|
            0 <= k < some.len() ==> (#[trigger] some[k]).column == column_at(
                rows,
                indices_of(some)[k] as int,
            ),
    ensures
        recovered_rows(some, n) == Ok::<_, rust_eth_kzg::Error>(rows.take(n as int)),
    decreases n,
{
    if n == 0 {
        assert(rows.take(0) =~= Seq::empty());
    } else {
        lemma_rows_recover(blobs, rows, some, (n - 1) as nat);
        let indices = indices_of(some);
        let picked = row_cells(some, n - 1);
        assert(is_extension(blobs[n - 1], rows[n - 1]));
        assert forall|k: int| 0 <= k < indices.len() implies #[trigger] picked[k]
            == rows[n - 1][indices[k] as int] by {
            assert(some[k].column == column_at(rows, indices[k] as int));
        }
        assert(picked_from(indices, picked, rows[n - 1]));
        assert(recovered_cells(indices, picked) == Ok::<_, rust_eth_kzg::Error>(rows[n - 1]));
        assert(rows.take(n - 1).push(rows[n - 1]) =~= rows.take(n as int));
    }
}

/// The blobs that the first half of columns holds.
pub open spec fn data_blobs(columns: Seq<SidecarView>) -> Seq<Seq<u8>> {
    Seq::new(columns[0].column.len(), |r: int| data_blob(columns, r))
}

/// The blob that the first half of columns holds in row `r`.
pub open spec fn data_blob(columns: Seq<SidecarView>, r: int) -> Seq<u8> {
    Seq::new(
        BYTES_PER_BLOB as nat,
        |j: int| columns[j / BYTES_PER_CELL as int].column[r][j % BYTES_PER_CELL as int],
    )
}

/// The first place from `i` on in the first half of columns whose column has another index.
pub open spec fn first_misplaced(columns: Seq<SidecarView>, i: nat) -> Option<nat>
    decreases CELLS_PER_EXT_BLOB / 2 - i,
{
    if i >= CELLS_PER_EXT_BLOB / 2 {
        None
    } else if columns[i as int].index != i {
        Some(i)
    } else {
        first_misplaced(columns, i + 1)
    }
}

/// The message for a column at a place that is not its index.
pub open spec fn misplaced_message(place: nat, index: nat) -> Seq<char> {
    "column at position "@ + decimal(place) + " has index "@ + decimal(index)
}

/// What all columns of a payload decode to: the payload and the requests, still in their own
/// encodings.
pub open spec fn decoded_columns(columns: Seq<SidecarView>) -> Result<DataView, ErrorView> {
    if columns.len() != CELLS_PER_EXT_BLOB {
        Err(
            ErrorView::InsufficientColumns {
                supplied: columns.len() as usize,
                required: CELLS_PER_EXT_BLOB,
            },
        )
    } else if !equally_long(columns) {
        Err(ErrorView::InconsistentColumnLengths)
    } else if columns[0].column.len() > 0 && first_misplaced(columns, 0) is Some {
        let place = first_misplaced(columns, 0)->0;
        Err(
            ErrorView::Internal(misplaced_message(place, columns[place as int].index as nat)),
        )
    } else {
        decoded_blobs(data_blobs(columns))
    }
}

/// No column of built sidecars is out of its place.
proof fn lemma_built_in_place(
    columns: Seq<Seq<Seq<u8>>>,
    beacon_block_root: Hash256,
    slot: Slot,
    i: nat,
)
    requires
        columns.len() == CELLS_PER_EXT_BLOB,
    ensures
        first_misplaced(built_sidecars(columns, beacon_block_root, slot), i) is None,
    decreases CELLS_PER_EXT_BLOB / 2 - i,
{
    if i < CELLS_PER_EXT_BLOB / 2 {
        lemma_built_in_place(columns, beacon_block_root, slot, i + 1);
    }
}

/// The first half of the columns of a payload holds its blobs, so that decoding the columns is
/// decoding the blobs.
pub proof fn law_columns_hold_the_blobs(
    blobs: Seq<Seq<u8>>,
    rows: Seq<Seq<Seq<u8>>>,
    beacon_block_root: Hash256,
    slot: Slot,
)
    requires
        are_extensions(blobs, rows),
        forall|r: int| 0 <= r < blobs.len() ==> (#[trigger] blobs[r]).len() == BYTES_PER_BLOB,
    ensures
        decoded_columns(built_sidecars(transposed(rows), beacon_block_root, slot))
            == decoded_blobs(blobs),
{
    let columns = built_sidecars(transposed(rows), beacon_block_root, slot);
    lemma_built_in_place(transposed(rows), beacon_block_root, slot, 0);
    assert forall|r: int| 0 <= r < rows.len() implies data_blob(columns, r)
        == #[trigger] blobs[r] by {
        assert(is_extension(blobs[r], rows[r]));
        assert forall|j: int| 0 <= j < BYTES_PER_BLOB implies #[trigger] data_blob(columns, r)[j]
            == blobs[r][j] by {
            let c = j / BYTES_PER_CELL as int;
            let k = j % BYTES_PER_CELL as int;
            assert(columns[c].column == column_at(rows, c));
            assert(rows[r][c][k] == blobs[r][c * BYTES_PER_CELL + k]);
        }
        assert(data_blob(columns, r) =~= blobs[r]);
    }
    assert(data_blobs(columns) =~= blobs);
}

/// What recovery returned.
pub open spec fn recovery_result(
    result: Result<Vec<PayloadColumnSidecar>, PayloadColumnError>,
) -> Result<Seq<SidecarView>, ErrorView> {
    match result {
        Ok(sidecars) => Ok(sidecars_of(sidecars@)),
        Err(e) => Err(e@),
    }
}

/// Recovers all sidecars from half of them or more, given in ascending order of their indices. Only
/// distinct columns count.
///
/// The recovered sidecars carry freshly derived inclusion proofs.
pub fn recover_payload_columns<E: EthSpec>(
    sidecars: &Vec<PayloadColumnSidecar>,
    kzg: &DASContext,
) -> (result: Result<Vec<PayloadColumnSidecar>, PayloadColumnError>)
    ensures
        recovery_result(result) == recovered_sidecars(sidecars_of(sidecars@)),
        // Fewer distinct columns than half are refused, and then columns of different lengths.
        ({
            let indices = Seq::new(sidecars@.len(), |k: int| sidecars@[k].index);
            indices.to_set().len() < 64 ==> result is Err && result->Err_0@ == (
            ErrorView::InsufficientColumns {
                supplied: indices.to_set().len() as usize,
                required: 64,
            })
        }),
        Seq::new(sidecars@.len(), |k: int| sidecars@[k].index).to_set().len() >= 64 && (exists|
            k: int,
        |
            0 <= k < sidecars@.len() && (#[trigger] sidecars@[k]).column@.len()
                != sidecars@[0].column@.len()) ==> result is Err && result->Err_0@
            == ErrorView::InconsistentColumnLengths,
        // All columns come back, for the block and the slot of the given ones, with as many cells.
        result is Ok ==> result->Ok_0@.len() == 128 && forall|c: int|
            0 <= c < 128 ==> {
                let sidecar = #[trigger] result->Ok_0@[c];
                &&& sidecar.index == c
                &&& sidecar.slot == sidecars@[0].slot
                &&& sidecar.beacon_block_root == sidecars@[0].beacon_block_root
                &&& sidecar.column@.len() == sidecars@[0].column@.len()
            },
        // Each row of them is what its cells determine.
        result is Ok ==> forall|r: int|
            0 <= r < sidecars@[0].column@.len() ==> {
                let row = #[trigger] recovered_cells(
                    indices_of(sidecars_of(sidecars@)),
                    row_cells(sidecars_of(sidecars@), r),
                );
                &&& row is Ok
                &&& forall|c: int|
                    0 <= c < 128 ==> (#[trigger] result->Ok_0@[c].column@[r]) == row->Ok_0[c]
            },
{
    proof {
        assert(indices_of(sidecars_of(sidecars@)) =~= Seq::new(
            sidecars@.len(),
            |k: int| sidecars@[k].index,
        ));
        if exists|k: int|
            0 <= k < sidecars@.len() && (#[trigger] sidecars@[k]).column@.len()
                != sidecars@[0].column@.len() {
            let k = choose|k: int|
                0 <= k < sidecars@.len() && (#[trigger] sidecars@[k]).column@.len()
                    != sidecars@[0].column@.len();
            assert(sidecars_of(sidecars@)[k].column.len()
                != sidecars_of(sidecars@)[0].column.len());
        }
    }
    let num_rows: usize = match rows_to_recover::<E>(sidecars) {
        Ok(num_rows) => num_rows,
        Err(e) => return Err(e),
    };
    let rows = match recover_rows(sidecars, num_rows, kzg) {
        Ok(rows) => rows,
        Err(e) => return Err(PayloadColumnError::from(e)),
    };
    let beacon_block_root = sidecars[0].beacon_block_root;
    let slot = sidecars[0].slot;
    proof {
        let all = sidecars_of(sidecars@);
        assert forall|r: int| 0 <= r < num_rows implies (#[trigger] recovered_cells(
            indices_of(all),
            row_cells(all, r),
        )) == Ok::<_, rust_eth_kzg::Error>(rows_of(rows@)[r]) by {
            law_rows_recover_one_by_one(all, num_rows as nat, r);
        }
    }
    match build_sidecars_from_rows::<E>(&rows, beacon_block_root, slot) {
        Ok((recovered, _)) => Ok(recovered),
        Err(e) => Err(e),
    }
}

/// How many rows sidecars may recover; refuses fewer distinct columns than half of all, and columns
/// of different lengths.
pub fn rows_to_recover<E: EthSpec>(sidecars: &Vec<PayloadColumnSidecar>) -> (result: Result<
    usize,
    PayloadColumnError,
>)
    ensures
        ({
            let all = sidecars_of(sidecars@);
            let required = CELLS_PER_EXT_BLOB / 2;
            if distinct_columns(all) < required {
                &&& result is Err
                &&& result->Err_0@ == ErrorView::InsufficientColumns {
                    supplied: distinct_columns(all) as usize,
                    required,
                }
            } else if !equally_long(all) {
                result is Err && result->Err_0@ == ErrorView::InconsistentColumnLengths
            } else {
                &&& result is Ok
                &&& all.len() >= required
                &&& result->Ok_0 == all[0].column.len()
                &&& result->Ok_0 <= MAX_BLOB_COMMITMENTS_PER_BLOCK
            }
        }),
        // Half of the columns or more, of one length, may be recovered.
        result is Ok <==> {
            &&& Seq::new(sidecars@.len(), |k: int| sidecars@[k].index).to_set().len() >= 64
            &&& forall|k: int|
                0 <= k < sidecars@.len() ==> (#[trigger] sidecars@[k]).column@.len()
                    == sidecars@[0].column@.len()
        },
        result is Ok ==> sidecars@.len() >= 64 && result->Ok_0 == sidecars@[0].column@.len(),
{
    proof {
        let all = sidecars_of(sidecars@);
        assert(indices_of(all) =~= Seq::new(sidecars@.len(), |k: int| sidecars@[k].index));
        assert(equally_long(all) == forall|k: int|
            0 <= k < sidecars@.len() ==> (#[trigger] sidecars@[k]).column@.len()
                == sidecars@[0].column@.len()) by {
            assert forall|k: int| 0 <= k < sidecars@.len() implies (
            #[trigger] sidecars@[k]).column@.len() == all[k].column.len() by {}
            if equally_long(all) {
                assert forall|k: int| 0 <= k < sidecars@.len() implies (
                #[trigger] sidecars@[k]).column@.len() == sidecars@[0].column@.len() by {
                    assert(all[k].column.len() == all[0].column.len());
                }
            }
        }
    }
    proof {
        E::shared_geometry();
    }
    let required: usize = E::number_of_columns() / 2;
    let supplied: usize = count_distinct(&sidecar_indices(sidecars));
    if supplied < required {
        return Err(PayloadColumnError::InsufficientColumns { supplied, required });
    }
    proof {
        indices_of(sidecars_of(sidecars@)).lemma_cardinality_of_set();
    }
    let num_rows: usize = sidecars[0].column.len();
    if !have_rows(sidecars, num_rows) {
        return Err(PayloadColumnError::InconsistentColumnLengths);
    }
    Ok(num_rows)
}

/// Whether every column has the given number of cells.
fn have_rows(sidecars: &Vec<PayloadColumnSidecar>, num_rows: usize) -> (result: bool)
    ensures
        result == forall|k: int|
            0 <= k < sidecars@.len() ==> (#[trigger] sidecars_of(sidecars@)[k]).column.len()
                == num_rows,
{
    let ghost all = sidecars_of(sidecars@);
    let mut k: usize = 0;
    while k < sidecars.len()
        invariant
            k <= sidecars@.len(),
            all == sidecars_of(sidecars@),
            forall|l: int| 0 <= l < k ==> (#[trigger] all[l]).column.len() == num_rows,
        decreases sidecars@.len() - k,
    {
        if sidecars[k].column.len() != num_rows {
            assert(all[k as int].column.len() != num_rows);
            return false;
        }
        k += 1;
    }
    true
}

/// Recovers the rows of sidecars one by one: each is an independently erasure-coded blob.
fn recover_rows(
    sidecars: &Vec<PayloadColumnSidecar>,
    num_rows: usize,
    kzg: &DASContext,
) -> (result: Result<Vec<Vec<Vec<u8>>>, rust_eth_kzg::Error>)
    requires
        forall|k: int|
            0 <= k < sidecars@.len() ==> (#[trigger] sidecars_of(sidecars@)[k]).column.len()
                == num_rows,
    ensures
        match result {
            Ok(rows) => {
                &&& recovered_rows(sidecars_of(sidecars@), num_rows as nat) == Ok::<
                    _,
                    rust_eth_kzg::Error,
                >(rows_of(rows@))
                &&& rows@.len() == num_rows
                &&& forall|r: int| 0 <= r < rows@.len() ==> row_shape(#[trigger] rows_of(rows@)[r])
            },
            Err(e) => recovered_rows(sidecars_of(sidecars@), num_rows as nat) == Err::<
                Seq<Seq<Seq<u8>>>,
                rust_eth_kzg::Error,
            >(e),
        },
{
    let ghost all = sidecars_of(sidecars@);
    let mut rows: Vec<Vec<Vec<u8>>> = Vec::new();
    assert(rows_of(rows@) =~= Seq::empty());
    let mut r: usize = 0;
    while r < num_rows
        invariant
            r <= num_rows,
            all == sidecars_of(sidecars@),
            forall|k: int| 0 <= k < all.len() ==> (#[trigger] all[k]).column.len() == num_rows,
            rows@.len() == r,
            recovered_rows(all, r as nat) == Ok::<_, rust_eth_kzg::Error>(rows_of(rows@)),
            forall|s: int| 0 <= s < r ==> row_shape(#[trigger] rows_of(rows@)[s]),
        decreases num_rows - r,
    {
        let ghost before = rows@;
        match recover_row(sidecars, r, kzg) {
            Ok(row) => {
                rows.push(row);
                assert(rows_of(rows@) =~= rows_of(before).push(bytes_of(row@)));
            },
            Err(e) => {
                proof {
                    lemma_rows_fail(all, (r + 1) as nat, num_rows as nat, e);
                }
                return Err(e);
            },
        }
        r += 1;
    }
    Ok(rows)
}

/// Recovers one row from the cells that sidecars have in it. Rows are independent of each other.
pub fn recover_row(sidecars: &Vec<PayloadColumnSidecar>, row: usize, kzg: &DASContext) -> (result:
    Result<Vec<Vec<u8>>, rust_eth_kzg::Error>)
    requires
        forall|k: int|
            0 <= k < sidecars@.len() ==> (#[trigger] sidecars_of(sidecars@)[k]).column.len() > row,
    ensures
        row_of(result) == recovered_cells(
            indices_of(sidecars_of(sidecars@)),
            row_cells(sidecars_of(sidecars@), row as int),
        ),
        result is Ok ==> row_shape(bytes_of(result->Ok_0@)),
        result is Ok ==> recoverable_indices(indices_of(sidecars_of(sidecars@))),
{
    let indices = sidecar_indices(sidecars);
    let cells = cells_in_row(sidecars, row);
    recover_cells(kzg, &indices, &cells)
}

/// Rows that fail to recover fail with the same error, however many rows follow.
proof fn lemma_rows_fail(sidecars: Seq<SidecarView>, n: nat, m: nat, e: rust_eth_kzg::Error)
    requires
        n <= m,
        recovered_rows(sidecars, n) == Err::<Seq<Seq<Seq<u8>>>, rust_eth_kzg::Error>(e),
    ensures
        recovered_rows(sidecars, m) == Err::<Seq<Seq<Seq<u8>>>, rust_eth_kzg::Error>(e),
    decreases m,
{
    if n < m {
        lemma_rows_fail(sidecars, n, (m - 1) as nat, e);
    }
}

/// The indices of sidecars, in order.
fn sidecar_indices(sidecars: &Vec<PayloadColumnSidecar>) -> (result: Vec<u64>)
    ensures
        result@ == indices_of(sidecars_of(sidecars@)),
{
    let mut indices: Vec<u64> = Vec::new();
    let mut k: usize = 0;
    while k < sidecars.len()
        invariant
            k <= sidecars@.len(),
            indices@ == indices_of(sidecars_of(sidecars@)).take(k as int),
        decreases sidecars@.len() - k,
    {
        indices.push(sidecars[k].index);
        assert(indices@ =~= indices_of(sidecars_of(sidecars@)).take(k + 1));
        k += 1;
    }
    assert(indices@ =~= indices_of(sidecars_of(sidecars@)));
    indices
}

/// Copies the cells of sidecars in row `r`.
fn cells_in_row(sidecars: &Vec<PayloadColumnSidecar>, r: usize) -> (result: Vec<Vec<u8>>)
    requires
        forall|k: int|
            0 <= k < sidecars@.len() ==> (#[trigger] sidecars_of(sidecars@)[k]).column.len() > r,
    ensures
        bytes_of(result@) == row_cells(sidecars_of(sidecars@), r as int),
        forall|k: int| 0 <= k < result@.len() ==> (#[trigger] result@[k])@.len() == BYTES_PER_CELL,
{
    let ghost all = sidecars_of(sidecars@);
    let mut cells: Vec<Vec<u8>> = Vec::new();
    let mut k: usize = 0;
    while k < sidecars.len()
        invariant
            k <= sidecars@.len(),
            all == sidecars_of(sidecars@),
            forall|l: int| 0 <= l < all.len() ==> (#[trigger] all[l]).column.len() > r,
            bytes_of(cells@) == row_cells(all, r as int).take(k as int),
            forall|l: int|
                0 <= l < cells@.len() ==> (#[trigger] cells@[l])@.len() == BYTES_PER_CELL,
        decreases sidecars@.len() - k,
    {
        assert(all[k as int].column.len() > r);
        let column = sidecars[k].column.as_cells();
        assert(bytes_of(column@)[r as int] == column@[r as int]@);
        let cell = copy_bytes(&column[r]);
        proof {
            lemma_bytes_of_push(cells@, cell);
            assert(row_cells(all, r as int).take(k as int).push(cell@) =~= row_cells(
                all,
                r as int,
            ).take(k + 1));
        }
        cells.push(cell);
        k += 1;
    }
    assert(row_cells(all, r as int).take(k as int) =~= row_cells(all, r as int));
    cells
}

/// Decodes all columns of a payload back into the payload.
///
/// The payload and the requests are decoded with `decode_payload` and `decode_requests` from their
/// SSZ encodings. Where either does not decode, its error is returned, that of the payload first.
pub fn payload_columns_to_payload_data<
    E: EthSpec,
    P,
    R,
    F: Fn(Vec<u8>) -> Result<P, ssz::DecodeError>,
    G: Fn(Vec<u8>) -> Result<R, ssz::DecodeError>,
>(columns: &Vec<PayloadColumnSidecar>, decode_payload: F, decode_requests: G) -> (result: Result<
    PayloadColumnData<P, R>,
    PayloadColumnError,
>)
    requires
        forall|bytes: Vec<u8>| call_requires(decode_payload, (bytes,)),
        forall|bytes: Vec<u8>| call_requires(decode_requests, (bytes,)),
    ensures
        data_decoded(
            decoded_columns(sidecars_of(columns@)),
            decode_payload,
            decode_requests,
            result,
        ),
{
    decode_fields(unpack_columns::<E>(columns), decode_payload, decode_requests)
}

/// Unpacks the encodings of the payload and the requests from all columns of a payload.
///
/// The first half of each row holds the blob itself; the second half is the extension.
pub fn unpack_columns<E: EthSpec>(columns: &Vec<PayloadColumnSidecar>) -> (result: Result<
    EncodedPayloadData,
    PayloadColumnError,
>)
    ensures
        data_result(result) == decoded_columns(sidecars_of(columns@)),
        result is Ok <==> decoded_columns(sidecars_of(columns@)) is Ok,
        result is Ok ==> {
            &&& result->Ok_0.payload@ == decoded_columns(sidecars_of(columns@))->Ok_0.payload
            &&& result->Ok_0.execution_requests@ == decoded_columns(
                sidecars_of(columns@),
            )->Ok_0.execution_requests
        },
        // Anything but all of the columns is refused.
        columns@.len() != 128 ==> result is Err && result->Err_0@
            == (ErrorView::InsufficientColumns { supplied: columns@.len() as usize, required: 128 }),
{
    let ghost all = sidecars_of(columns@);
    proof {
        E::shared_geometry();
    }
    let number_of_columns: usize = E::number_of_columns();
    if columns.len() != number_of_columns {
        return Err(
            PayloadColumnError::InsufficientColumns {
                supplied: columns.len(),
                required: number_of_columns,
            },
        );
    }
    let num_rows: usize = columns[0].column.len();
    if !have_rows(columns, num_rows) {
        return Err(PayloadColumnError::InconsistentColumnLengths);
    }
    if num_rows > 0 {
        match find_misplaced(columns) {
            Some(place) => {
                let head = with_decimal("column at position ", place as u64, " has index ");
                let message = with_decimal(head.as_str(), columns[place].index, "");
                proof {
                    reveal_strlit("");
                    assert(message@ =~= misplaced_message(
                        place as nat,
                        all[place as int].index as nat,
                    ));
                }
                return Err(PayloadColumnError::Internal(message));
            },
            None => {},
        }
    }
    let mut blobs: Vec<Blob> = Vec::new();
    let mut row: usize = 0;
    while row < num_rows
        invariant
            row <= num_rows,
            all == sidecars_of(columns@),
            all.len() == CELLS_PER_EXT_BLOB,
            forall|k: int| 0 <= k < all.len() ==> (#[trigger] all[k]).column.len() == num_rows,
            blobs@.len() == row,
            forall|r: int| 0 <= r < row ==> (#[trigger] blobs@[r])@ == data_blob(all, r),
        decreases num_rows - row,
    {
        match Blob::new(data_bytes(columns, row)) {
            Ok(blob) => blobs.push(blob),
            Err(_) => return Err(PayloadColumnError::Internal("blob size mismatch".to_string())),
        }
        row += 1;
    }
    assert(blobs_of(blobs@) =~= data_blobs(all));
    unpack_blobs::<E>(&blobs)
}

/// Finds the first column of the first half whose index is not its place.
fn find_misplaced(columns: &Vec<PayloadColumnSidecar>) -> (result: Option<usize>)
    requires
        columns@.len() == CELLS_PER_EXT_BLOB,
    ensures
        match result {
            Some(place) => first_misplaced(sidecars_of(columns@), 0) == Some(place as nat) && place
                < columns@.len(),
            None => first_misplaced(sidecars_of(columns@), 0) is None,
        },
{
    let ghost all = sidecars_of(columns@);
    let mut i: usize = 0;
    while i < CELLS_PER_EXT_BLOB / 2
        invariant
            i <= CELLS_PER_EXT_BLOB / 2,
            columns@.len() == CELLS_PER_EXT_BLOB,
            all == sidecars_of(columns@),
            first_misplaced(all, 0) == first_misplaced(all, i as nat),
        decreases CELLS_PER_EXT_BLOB / 2 - i,
    {
        assert(all[i as int].index == columns@[i as int].index);
        if columns[i].index != i as u64 {
            return Some(i);
        }
        i += 1;
    }
    None
}

/// Copies the bytes of the first half of columns in one row.
fn data_bytes(columns: &Vec<PayloadColumnSidecar>, row: usize) -> (result: Vec<u8>)
    requires
        columns@.len() == CELLS_PER_EXT_BLOB,
        forall|k: int|
            0 <= k < columns@.len() ==> (#[trigger] sidecars_of(columns@)[k]).column.len() > row,
    ensures
        result@ == data_blob(sidecars_of(columns@), row as int),
{
    let ghost all = sidecars_of(columns@);
    let ghost blob = data_blob(all, row as int);
    let mut bytes: Vec<u8> = Vec::with_capacity(BYTES_PER_BLOB);
    let mut i: usize = 0;
    while i < CELLS_PER_EXT_BLOB / 2
        invariant
            i <= CELLS_PER_EXT_BLOB / 2,
            columns@.len() == CELLS_PER_EXT_BLOB,
            all == sidecars_of(columns@),
            forall|k: int| 0 <= k < all.len() ==> (#[trigger] all[k]).column.len() > row,
            blob == data_blob(all, row as int),
            bytes@.len() == i * BYTES_PER_CELL,
            bytes@ == blob.take(bytes@.len() as int),
        decreases CELLS_PER_EXT_BLOB / 2 - i,
    {
        assert(all[i as int].column.len() > row);
        let cells = columns[i].column.as_cells();
        let cell = &cells[row];
        assert(bytes_of(cells@)[row as int] == cell@);
        assert(cell@.len() == BYTES_PER_CELL);
        let ghost before = bytes@;
        bytes.extend_from_slice(cell.as_slice());
        assert(bytes@ =~= before + cell@);
        assert forall|j: int| 0 <= j < bytes@.len() implies bytes@[j] == blob[j] by {
            if j >= before.len() {
                assert(j / BYTES_PER_CELL as int == i && j % BYTES_PER_CELL as int == j
                    - before.len());
            } else {
                assert(before[j] == blob[j]);
            }
        }
        assert(bytes@ =~= blob.take(bytes@.len() as int));
        i += 1;
    }
    assert(bytes@ =~= blob);
    bytes
}

/// The root that commits to a payload depends neither on the block nor on the slot that its
/// sidecars are built for.
pub proof fn law_root_does_not_depend_on_the_block(
    data: DataView,
    beacon_block_root: Hash256,
    slot: Slot,
)
    ensures
        match payload_sidecars(data, beacon_block_root, slot) {
            Ok((_, root)) => payload_columns_root(data) == Ok::<Hash256, ErrorView>(root),
            Err(e) => payload_columns_root(data) == Err::<Hash256, ErrorView>(e),
        },
{
}

/// A selection that recovers is any half or more of the sidecars, in ascending order of their
/// indices.
pub proof fn law_any_half_is_a_selection(some: Seq<SidecarView>, all: Seq<SidecarView>)
    ensures
        selected_from(some, all) <==> {
            &&& some.len() >= 64
            &&& forall|k: int|
                0 <= k < some.len() ==> (#[trigger] some[k]).index < 128 && some[k]
                    == all[some[k].index as int]
            &&& forall|k: int, l: int|
                0 <= k < l < some.len() ==> (#[trigger] some[k]).index < (#[trigger] some[l]).index
        },
{
    let indices = indices_of(some);
    if selected_from(some, all) {
        assert forall|k: int| 0 <= k < some.len() implies (#[trigger] some[k]).index < 128
            && some[k] == all[some[k].index as int] by {
            assert(indices[k] == some[k].index);
        }
        assert forall|k: int, l: int| 0 <= k < l < some.len() implies (#[trigger] some[k]).index < (
        #[trigger] some[l]).index by {
            assert(indices[k] < indices[l]);
        }
    }
    if some.len() >= 64 && (forall|k: int|
        0 <= k < some.len() ==> (#[trigger] some[k]).index < 128 && some[k]
            == all[some[k].index as int]) && (forall|k: int, l: int|
        0 <= k < l < some.len() ==> (#[trigger] some[k]).index < (#[trigger] some[l]).index) {
        assert forall|k: int| 0 <= k < indices.len() implies #[trigger] indices[k]
            < CELLS_PER_EXT_BLOB by {
            assert(some[k].index < 128);
        }
        assert forall|k: int, l: int| 0 <= k < l < indices.len() implies indices[k] < indices[l] by {
            assert(some[k].index < some[l].index);
        }
    }
}

/// Rows are recovered one by one: all of them are where each is, and each is what its own cells
/// determine.
pub proof fn law_rows_recover_one_by_one(sidecars: Seq<SidecarView>, n: nat, r: int)
    requires
        0 <= r < n,
    ensures
        recovered_rows(sidecars, n) is Ok ==> {
            &&& recovered_rows(sidecars, n)->Ok_0.len() == n
            &&& recovered_cells(indices_of(sidecars), row_cells(sidecars, r)) == Ok::<
                _,
                rust_eth_kzg::Error,
            >(recovered_rows(sidecars, n)->Ok_0[r])
        },
        recovered_cells(indices_of(sidecars), row_cells(sidecars, r)) is Err ==> recovered_rows(
            sidecars,
            n,
        ) is Err,
    decreases n,
{
    lemma_rows_len(sidecars, n);
    lemma_rows_len(sidecars, (n - 1) as nat);
    if r < n - 1 {
        law_rows_recover_one_by_one(sidecars, (n - 1) as nat, r);
    }
}

/// As many rows are recovered as were to be.
proof fn lemma_rows_len(sidecars: Seq<SidecarView>, n: nat)
    ensures
        recovered_rows(sidecars, n) is Ok ==> recovered_rows(sidecars, n)->Ok_0.len() == n,
    decreases n,
{
    if n > 0 {
        lemma_rows_len(sidecars, (n - 1) as nat);
    }
}

/// Rows that can all be recovered are.
pub proof fn law_recoverable_rows_are_recovered(sidecars: Seq<SidecarView>, n: nat)
    requires
        forall|r: int|
            0 <= r < n ==> (#[trigger] recovered_cells(
                indices_of(sidecars),
                row_cells(sidecars, r),
            )) is Ok,
    ensures
        recovered_rows(sidecars, n) is Ok,
    decreases n,
{
    if n > 0 {
        law_recoverable_rows_are_recovered(sidecars, (n - 1) as nat);
        assert(recovered_cells(indices_of(sidecars), row_cells(sidecars, n - 1)) is Ok);
    }
}

/// When recovery succeeds and what comes of it: it takes 64 distinct columns or more of one length,
/// all of whose rows can be recovered. It gives all 128 columns for the block and the slot of the
/// first, each row of which is what the given cells determine, and each of which verifies under the
/// root of them all. Else the first of these that does not hold decides the error.
pub proof fn law_recovery(some: Seq<SidecarView>)
    ensures
        ({
            let result = recovered_sidecars(some);
            let indices = Seq::new(some.len(), |k: int| some[k].index);
            let distinct = indices.to_set().len();
            let even = forall|k: int|
                0 <= k < some.len() ==> (#[trigger] some[k]).column.len() == some[0].column.len();
            &&& distinct < 64 ==> result == Err::<Seq<SidecarView>, ErrorView>(
                ErrorView::InsufficientColumns { supplied: distinct as usize, required: 64 },
            )
            &&& distinct >= 64 && !even ==> result == Err::<Seq<SidecarView>, ErrorView>(
                ErrorView::InconsistentColumnLengths,
            )
            &&& distinct >= 64 && even ==> {
                &&& result is Ok <==> recovered_rows(some, some[0].column.len()) is Ok
                &&& result is Err ==> result->Err_0 == ErrorView::Kzg(
                    recovered_rows(some, some[0].column.len())->Err_0,
                )
            }
            &&& result is Ok ==> result->Ok_0.len() == 128
            &&& result is Ok ==> forall|c: int|
                0 <= c < 128 ==> {
                    let sidecar = #[trigger] result->Ok_0[c];
                    &&& sidecar.index == c
                    &&& sidecar.slot == some[0].slot
                    &&& sidecar.beacon_block_root == some[0].beacon_block_root
                    &&& sidecar.column.len() == some[0].column.len()
                    &&& sidecar.included_under(
                        tree_root(
                            Seq::new(
                                128,
                                |d: int| column_tree_hash_root(result->Ok_0[d].column),
                            ),
                            7,
                        ),
                    )
                }
        }),
{
    let result = recovered_sidecars(some);
    assert(indices_of(some) =~= Seq::new(some.len(), |k: int| some[k].index));
    if result is Ok {
        let rows = recovered_rows(some, some[0].column.len())->Ok_0;
        let columns = transposed(rows);
        lemma_rows_len(some, some[0].column.len());
        assert(column_roots(columns) =~= Seq::new(
            128,
            |d: int| column_tree_hash_root(result->Ok_0[d].column),
        ));
        assert forall|c: int| 0 <= c < 128 implies {
            let sidecar = #[trigger] result->Ok_0[c];
            &&& sidecar.index == c
            &&& sidecar.slot == some[0].slot
            &&& sidecar.beacon_block_root == some[0].beacon_block_root
            &&& sidecar.column.len() == some[0].column.len()
            &&& sidecar.included_under(columns_root(columns))
        } by {
            law_built_sidecars_verify(columns, some[0].beacon_block_root, some[0].slot, c);
        }
    }
}

/// The sidecars of a payload: 128 of them, each at its place, for the given block and slot, with
/// the cell of the extension of each blob at that place; and their root is that of the tree of the
/// column roots.
pub proof fn law_payload_sidecars(
    data: DataView,
    beacon_block_root: Hash256,
    slot: Slot,
    c: int,
    r: int,
)
    requires
        encoded_blobs(data) is Ok,
        0 <= c < 128,
        0 <= r < encoded_blobs(data)->Ok_0.len(),
    ensures
        payload_sidecars(data, beacon_block_root, slot) is Ok,
        ({
            let (sidecars, root) = payload_sidecars(data, beacon_block_root, slot)->Ok_0;
            &&& sidecars.len() == 128
            &&& sidecars[c].index == c
            &&& sidecars[c].slot == slot
            &&& sidecars[c].beacon_block_root == beacon_block_root
            &&& sidecars[c].column.len() == encoded_blobs(data)->Ok_0.len()
            &&& sidecars[c].column[r] == extended_cells(encoded_blobs(data)->Ok_0[r])->Ok_0[c]
            &&& sidecars[c].included_under(root)
            &&& root == tree_root(
                Seq::new(128, |d: int| column_tree_hash_root(sidecars[d].column)),
                7,
            )
            &&& payload_columns_root(data) == Ok::<Hash256, ErrorView>(root)
        }),
{
    let columns = payload_columns(data)->Ok_0;
    let sidecars = built_sidecars(columns, beacon_block_root, slot);
    law_built_sidecars_verify(columns, beacon_block_root, slot, c);
    assert(column_roots(columns) =~= Seq::new(
        128,
        |d: int| column_tree_hash_root(sidecars[d].column),
    ));
}

/// A payload that cannot be packed cannot be coded, for the same reason.
pub proof fn law_unpacked_payloads_have_no_sidecars(
    data: DataView,
    beacon_block_root: Hash256,
    slot: Slot,
)
    requires
        encoded_blobs(data) is Err,
    ensures
        payload_sidecars(data, beacon_block_root, slot) is Err,
        payload_sidecars(data, beacon_block_root, slot)->Err_0 == encoded_blobs(data)->Err_0,
        payload_columns_root(data) == Err::<Hash256, ErrorView>(encoded_blobs(data)->Err_0),
{
}

/// All columns of a payload, of one length and with the first half of them in their places, decode
/// as the blobs that are made up of their cells: cell after cell of one row is a blob.
pub proof fn law_columns_decode_as_their_rows(columns: Seq<SidecarView>, blobs: Seq<Seq<u8>>)
    requires
        columns.len() == 128,
        forall|c: int| 0 <= c < 128 ==> (#[trigger] columns[c]).column.len() == blobs.len(),
        forall|c: int| 0 <= c < 64 ==> (#[trigger] columns[c]).index == c,
        forall|r: int| 0 <= r < blobs.len() ==> (#[trigger] blobs[r]).len() == 131072,
        forall|c: int, r: int, j: int|
            0 <= c < 64 && 0 <= r < blobs.len() && 0 <= j < 2048
                ==> #[trigger] columns[c].column[r][j] == blobs[r][2048 * c + j],
    ensures
        decoded_columns(columns) == decoded_blobs(blobs),
{
    lemma_in_place(columns, 0);
    assert(columns[0].column.len() == blobs.len());
    assert forall|r: int| 0 <= r < blobs.len() implies data_blob(columns, r)
        == #[trigger] blobs[r] by {
        assert forall|j: int| 0 <= j < 131072 implies #[trigger] data_blob(columns, r)[j]
            == blobs[r][j] by {
            let c = j / 2048;
            let k = j % 2048;
            assert(2048 * c + k == j);
            assert(columns[c].column[r][k] == blobs[r][2048 * c + k]);
        }
        assert(data_blob(columns, r) =~= blobs[r]);
    }
    assert(data_blobs(columns) =~= blobs);
}

/// Columns in their places are not misplaced.
proof fn lemma_in_place(columns: Seq<SidecarView>, i: nat)
    requires
        forall|c: int| 0 <= c < 64 ==> (#[trigger] columns[c]).index == c,
    ensures
        first_misplaced(columns, i) is None,
    decreases 64 - i,
{
    if i < 64 {
        assert(columns[i as int].index == i);
        lemma_in_place(columns, i + 1);
    }
}

/// What is refused of columns: another number than all, then columns of different lengths, then,
/// where there are rows, the first of the first half that is out of its place.
pub proof fn law_columns_that_do_not_decode(columns: Seq<SidecarView>, place: int)
    requires
        0 <= place < 64,
    ensures
        columns.len() != 128 ==> decoded_columns(columns) == Err::<DataView, ErrorView>(
            ErrorView::InsufficientColumns { supplied: columns.len() as usize, required: 128 },
        ),
        columns.len() == 128 && (exists|c: int|
            0 <= c < 128 && (#[trigger] columns[c]).column.len() != columns[0].column.len())
            ==> decoded_columns(columns) == Err::<DataView, ErrorView>(
            ErrorView::InconsistentColumnLengths,
        ),
        columns.len() == 128 && (forall|c: int|
            0 <= c < 128 ==> (#[trigger] columns[c]).column.len() == columns[0].column.len())
            && columns[0].column.len() > 0 && columns[place].index != place && (forall|c: int|
            0 <= c < place ==> (#[trigger] columns[c]).index == c) ==> decoded_columns(columns)
            == Err::<DataView, ErrorView>(
            ErrorView::Internal(
                "column at position "@ + decimal(place as nat) + " has index "@ + decimal(
                    columns[place].index as nat,
                ),
            ),
        ),
{
    if columns[place].index != place && (forall|c: int|
        0 <= c < place ==> (#[trigger] columns[c]).index == c) {
        lemma_first_misplaced(columns, 0, place as nat);
    }
}

/// The first column out of its place is found.
proof fn lemma_first_misplaced(columns: Seq<SidecarView>, i: nat, place: nat)
    requires
        i <= place < 64,
        columns[place as int].index != place,
        forall|c: int| 0 <= c < place ==> (#[trigger] columns[c]).index == c,
    ensures
        first_misplaced(columns, i) == Some(place),
    decreases place - i,
{
    if i < place {
        assert(columns[i as int].index == i);
        lemma_first_misplaced(columns, i + 1, place);
    }
}

/// The cells of rows and columns and the sidecars of a sequence keep their places.
pub proof fn law_cells_keep_their_places(
    rows: Seq<Vec<Vec<u8>>>,
    columns: Seq<PayloadColumn>,
    sidecars: Seq<PayloadColumnSidecar>,
    i: int,
    j: int,
)
    ensures
        rows_of(rows).len() == rows.len(),
        columns_of(columns).len() == columns.len(),
        sidecars_of(sidecars).len() == sidecars.len(),
        0 <= i < rows.len() ==> rows_of(rows)[i].len() == rows[i]@.len(),
        0 <= i < rows.len() && 0 <= j < rows[i]@.len() ==> rows_of(rows)[i][j] == rows[i]@[j]@,
        0 <= i < columns.len() ==> columns_of(columns)[i] == columns[i]@,
        0 <= i < sidecars.len() ==> sidecars_of(sidecars)[i] == sidecars[i]@,
{
}

/// The indices and the cells that a row is recovered from are those of the sidecars, in order.
pub proof fn law_a_row_is_recovered_from_its_cells(sidecars: Seq<SidecarView>, r: int, k: int)
    requires
        0 <= k < sidecars.len(),
    ensures
        indices_of(sidecars).len() == sidecars.len(),
        row_cells(sidecars, r).len() == sidecars.len(),
        indices_of(sidecars)[k] == sidecars[k].index,
        row_cells(sidecars, r)[k] == sidecars[k].column[r],
{
}

} // verus!
