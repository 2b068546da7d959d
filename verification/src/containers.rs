//! Byte containers of fixed shape: blobs and columns of cells.

use crate::eth_spec::{BYTES_PER_BLOB, BYTES_PER_CELL, MAX_BLOB_COMMITMENTS_PER_BLOCK};
use crate::kzg::{bytes_of, lemma_bytes_of_push};
use vstd::prelude::*;

verus! {

/// A length that a container does not admit, and the length that it admits.
#[derive(Clone, Copy, Debug, PartialEq, Eq, Structural)]
pub enum ContainerError {
    OutOfBounds { i: usize, len: usize },
}

/// Copies a byte vector.
pub fn copy_bytes(bytes: &Vec<u8>) -> (result: Vec<u8>)
    ensures
        result@ == bytes@,
{
    let copy = bytes.clone();
    assert(copy@ =~= bytes@);
    copy
}

/// A blob: as many bytes as a blob has.
#[derive(Debug, PartialEq, Eq)]
pub struct Blob {
    bytes: Vec<u8>,
}

impl View for Blob {
    type V = Seq<u8>;

    closed spec fn view(&self) -> Seq<u8> {
        self.bytes@
    }
}

impl Blob {
    #[verifier::type_invariant]
    spec fn has_fixed_length(self) -> bool {
        self.bytes@.len() == BYTES_PER_BLOB
    }

    /// The blob of the given bytes, if there are as many as a blob has.
    pub fn new(bytes: Vec<u8>) -> (result: Result<Blob, ContainerError>)
        ensures
            bytes@.len() == BYTES_PER_BLOB ==> result is Ok && result->Ok_0@ == bytes@,
            bytes@.len() != BYTES_PER_BLOB ==> result == Err::<Blob, ContainerError>(
                ContainerError::OutOfBounds { i: bytes.len(), len: BYTES_PER_BLOB },
            ),
    {
        if bytes.len() == BYTES_PER_BLOB {
            Ok(Blob { bytes })
        } else {
            Err(ContainerError::OutOfBounds { i: bytes.len(), len: BYTES_PER_BLOB })
        }
    }

    /// The bytes of this blob.
    pub fn as_bytes(&self) -> (result: &Vec<u8>)
        ensures
            result@ == self@,
            self@.len() == BYTES_PER_BLOB,
    {
        proof {
            use_type_invariant(self);
        }
        &self.bytes
    }

    /// The bytes of this blob.
    pub fn into_bytes(self) -> (result: Vec<u8>)
        ensures
            result@ == self@,
            self@.len() == BYTES_PER_BLOB,
    {
        proof {
            use_type_invariant(&self);
        }
        self.bytes
    }
}

/// The bytes of each blob of a sequence.
pub open spec fn blobs_of(blobs: Seq<Blob>) -> Seq<Seq<u8>> {
    Seq::new(blobs.len(), |i: int| blobs[i]@)
}

/// A payload column: one cell per payload blob (row).
#[derive(Debug, PartialEq, Eq)]
pub struct PayloadColumn {
    cells: Vec<Vec<u8>>,
}

/// Whether cells form a column: no more than the rows of one block, each of its fixed size.
pub open spec fn column_shape(cells: Seq<Seq<u8>>) -> bool {
    &&& cells.len() <= MAX_BLOB_COMMITMENTS_PER_BLOCK
    &&& forall|r: int| 0 <= r < cells.len() ==> (#[trigger] cells[r]).len() == BYTES_PER_CELL
}

impl View for PayloadColumn {
    type V = Seq<Seq<u8>>;

    closed spec fn view(&self) -> Seq<Seq<u8>> {
        bytes_of(self.cells@)
    }
}

impl PayloadColumn {
    #[verifier::type_invariant]
    spec fn has_column_shape(self) -> bool {
        column_shape(bytes_of(self.cells@))
    }

    /// The column without cells.
    pub fn empty() -> (result: PayloadColumn)
        ensures
            result@ == Seq::<Seq<u8>>::empty(),
    {
        let column = PayloadColumn { cells: Vec::new() };
        assert(column@ =~= Seq::<Seq<u8>>::empty());
        column
    }

    /// What [`PayloadColumn::new`] returns: an error for the first cell of another size than a cell
    /// has, else an error for too many cells, else the column.
    pub open spec fn spec_new(cells: Seq<Seq<u8>>) -> Result<Seq<Seq<u8>>, ContainerError> {
        if exists|r: int| 0 <= r < cells.len() && (#[trigger] cells[r]).len() != BYTES_PER_CELL {
            Err(
                ContainerError::OutOfBounds {
                    i: cells[first_odd_cell(cells)].len() as usize,
                    len: BYTES_PER_CELL,
                },
            )
        } else if cells.len() > MAX_BLOB_COMMITMENTS_PER_BLOCK {
            Err(
                ContainerError::OutOfBounds {
                    i: cells.len() as usize,
                    len: MAX_BLOB_COMMITMENTS_PER_BLOCK,
                },
            )
        } else {
            Ok(cells)
        }
    }

    /// The column of the given cells, if they form one.
    pub fn new(cells: Vec<Vec<u8>>) -> (result: Result<PayloadColumn, ContainerError>)
        ensures
            match result {
                Ok(column) => PayloadColumn::spec_new(bytes_of(cells@)) == Ok::<_, ContainerError>(
                    column@,
                ),
                Err(e) => PayloadColumn::spec_new(bytes_of(cells@)) == Err::<
                    Seq<Seq<u8>>,
                    ContainerError,
                >(e),
            },
            // Up to 4096 cells of 2048 bytes each are a column, and nothing else is.
            result is Ok <==> cells@.len() <= 4096 && forall|r: int|
                0 <= r < cells@.len() ==> (#[trigger] cells@[r])@.len() == 2048,
            result is Ok ==> result->Ok_0@.len() == cells@.len() && forall|r: int|
                0 <= r < cells@.len() ==> #[trigger] result->Ok_0@[r] == cells@[r]@,
            // Else the error gives the size of the first cell of another size, or else the number
            // of cells.
            forall|r: int|
                0 <= r < cells@.len() && (#[trigger] cells@[r])@.len() != 2048 && (forall|q: int|
                    0 <= q < r ==> (#[trigger] cells@[q])@.len() == 2048) ==> result == Err::<
                    PayloadColumn,
                    ContainerError,
                >(ContainerError::OutOfBounds { i: cells@[r]@.len() as usize, len: 2048 }),
            cells@.len() > 4096 && (forall|q: int|
                0 <= q < cells@.len() ==> (#[trigger] cells@[q])@.len() == 2048) ==> result == Err::<
                PayloadColumn,
                ContainerError,
            >(ContainerError::OutOfBounds { i: cells@.len() as usize, len: 4096 }),
    {
        proof {
            assert forall|r: int| 0 <= r < cells@.len() implies bytes_of(cells@)[r]
                == #[trigger] cells@[r]@ by {}
        }
        let ghost all = bytes_of(cells@);
        let mut r: usize = 0;
        while r < cells.len()
            invariant
                r <= cells@.len(),
                all == bytes_of(cells@),
                forall|s: int| 0 <= s < r ==> (#[trigger] all[s]).len() == BYTES_PER_CELL,
            decreases cells@.len() - r,
        {
            if cells[r].len() != BYTES_PER_CELL {
                proof {
                    assert(all[r as int].len() != BYTES_PER_CELL);
                    lemma_first_odd_cell(all, r as int);
                    assert forall|q: int| 0 <= q < cells@.len() implies all[q]
                        == #[trigger] cells@[q]@ by {}
                }
                return Err(ContainerError::OutOfBounds { i: cells[r].len(), len: BYTES_PER_CELL });
            }
            assert(all[r as int].len() == BYTES_PER_CELL);
            r += 1;
        }
        if cells.len() > MAX_BLOB_COMMITMENTS_PER_BLOCK {
            return Err(
                ContainerError::OutOfBounds {
                    i: cells.len(),
                    len: MAX_BLOB_COMMITMENTS_PER_BLOCK,
                },
            );
        }
        Ok(PayloadColumn { cells })
    }

    /// The cells of this column.
    pub fn as_cells(&self) -> (result: &Vec<Vec<u8>>)
        ensures
            bytes_of(result@) == self@,
            column_shape(self@),
    {
        proof {
            use_type_invariant(self);
        }
        &self.cells
    }

    /// The cells of this column.
    pub fn into_cells(self) -> (result: Vec<Vec<u8>>)
        ensures
            bytes_of(result@) == self@,
            column_shape(self@),
    {
        proof {
            use_type_invariant(&self);
        }
        self.cells
    }

    /// How many cells this column has.
    pub fn len(&self) -> (result: usize)
        ensures
            result == self@.len(),
            column_shape(self@),
    {
        proof {
            use_type_invariant(self);
        }
        self.cells.len()
    }
}

impl Clone for PayloadColumn {
    fn clone(&self) -> (result: PayloadColumn)
        ensures
            result@ == self@,
    {
        proof {
            use_type_invariant(self);
        }
        let mut cells: Vec<Vec<u8>> = Vec::new();
        let mut r: usize = 0;
        while r < self.cells.len()
            invariant
                r <= self.cells@.len(),
                bytes_of(cells@) == bytes_of(self.cells@).take(r as int),
            decreases self.cells@.len() - r,
        {
            let cell = copy_bytes(&self.cells[r]);
            proof {
                lemma_bytes_of_push(cells@, cell);
                assert(bytes_of(self.cells@).take(r as int).push(cell@) =~= bytes_of(
                    self.cells@,
                ).take(r + 1));
            }
            cells.push(cell);
            r += 1;
        }
        assert(bytes_of(self.cells@).take(r as int) =~= bytes_of(self.cells@));
        PayloadColumn { cells }
    }
}

/// The place of the first cell of another size than a cell has.
pub open spec fn first_odd_cell(cells: Seq<Seq<u8>>) -> int {
    choose|r: int|
        {
            &&& 0 <= r < cells.len()
            &&& (#[trigger] cells[r]).len() != BYTES_PER_CELL
            &&& forall|s: int| 0 <= s < r ==> (#[trigger] cells[s]).len() == BYTES_PER_CELL
        }
}

proof fn lemma_first_odd_cell(cells: Seq<Seq<u8>>, r: int)
    requires
        0 <= r < cells.len(),
        cells[r].len() != BYTES_PER_CELL,
        forall|s: int| 0 <= s < r ==> (#[trigger] cells[s]).len() == BYTES_PER_CELL,
    ensures
        first_odd_cell(cells) == r,
{
    let first = first_odd_cell(cells);
    assert(0 <= first < cells.len() && cells[first].len() != BYTES_PER_CELL);
}

/// The bytes of blobs are those of each of them, in order.
pub proof fn law_blobs_keep_their_places(blobs: Seq<Blob>, i: int)
    requires
        0 <= i < blobs.len(),
    ensures
        blobs_of(blobs).len() == blobs.len(),
        blobs_of(blobs)[i] == blobs[i]@,
{
}

} // verus!
