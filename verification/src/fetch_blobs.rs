//! Fetching the blobs of a block from the execution layer.
//!
//! If a blob has been seen in the public mempool, it is often unnecessary to wait for it to arrive
//! on gossip: the execution layer has it in its blob pool. What it supplies that has not been seen
//! on gossip is published and imported.
//!
//! The fetch is a sequence of questions to the chain and the execution layer. [`FetchState`] says
//! which one is next. The answer to each is handed to one function, which returns the next state.

use crate::bitarray::{
    bit_at, custody_columns_to_bitarray, find_place, holds_columns,
    law_bitarray_holds_the_custody_columns, law_places_are_ordered, law_places_in_ascending_order,
    place_of, BITARRAY_BITS,
};
use crate::column_selection::{
    contains_index, drop_known, drop_observed, keep_custody, law_selected_are_wanted,
    law_selection_is_a_filter, law_selections_combine, law_wanted_are_selected, not_seen,
    observed_set, selected, set_of, Indexed,
};
use crate::eth_spec::MAX_BLOB_COMMITMENTS_PER_BLOCK;
use crate::primitives::{ColumnIndex, Hash256, Slot};
use crate::sha256::{hash_fixed, sha256};
use crate::text::{decimal, with_decimal};
use std::collections::HashSet;
use vstd::prelude::*;
use vstd::seq_lib::lemma_seq_contains_after_push;

verus! {

broadcast use vstd::std_specs::hash::group_hash_axioms;

/// What the execution layer supplies and the chain makes of it. The fetch carries these values
/// through and looks into none of them.
pub trait EngineTypes: Sized {
    /// A blob with the proof for it.
    type BlobAndProofV1;

    /// A blob with the proofs for its cells.
    type BlobAndProofV2;

    /// A cell of a blob.
    type Cell;

    /// The proof for a cell.
    type Proof;

    /// A blob that needs no further verification.
    type Blob;

    /// A column in custody, with some of its cells.
    type PartialColumn;

    /// A column in custody, with all of its cells.
    type Column;

    /// Why the chain or the execution layer cannot do something.
    type Error;
}

/// What the execution layer supplied, to be imported and to be published on gossip. It has not been
/// marked as observed yet, as it may not be published immediately.
pub enum EngineGetBlobsOutput<T: EngineTypes> {
    Blobs(Vec<Indexed<T::Blob>>),
    /// The columns in custody that are to be imported.
    CustodyColumns(Vec<T::Column>),
}

/// Why blobs could not be fetched or processed.
#[derive(Debug)]
pub enum FetchEngineBlobError<X> {
    BeaconStateError(X),
    BeaconChainError(X),
    BlobProcessingError(X),
    BlobSidecarError(X),
    DataColumnSidecarError(X),
    ExecutionLayerMissing,
    InternalError(String),
    GossipBlob(X),
    KzgError(rust_eth_kzg::Error),
    RequestFailed(X),
    RuntimeShutdown,
    TokioJoin(X),
}

/// What importing blobs or columns of a block came to.
#[derive(Clone, Copy, Debug)]
pub enum AvailabilityProcessingStatus {
    MissingComponents(Slot, Hash256),
    Imported(Hash256),
}

/// The cells of one blob and the proofs for them, at the places of the columns that were asked for.
pub struct BlobCellsAndProofs<C, P> {
    pub blob_cells: Vec<Option<C>>,
    pub proofs: Vec<Option<P>>,
}

/// The versioned hash of a KZG commitment: its SHA-256 digest, with the version as its first byte.
pub open spec fn versioned_hash(commitment: Seq<u8>) -> Seq<u8> {
    sha256(commitment)@.update(0, 1)
}

/// The versioned hash of a KZG commitment.
pub fn kzg_commitment_to_versioned_hash(commitment: &[u8; 48]) -> (result: Hash256)
    ensures
        result@ == versioned_hash(commitment@),
        result@[0] == 1,
        forall|i: int| 1 <= i < 32 ==> #[trigger] result@[i] == sha256(commitment@)@[i],
{
    let mut hash: Hash256 = hash_fixed(commitment);
    hash[0] = 1;
    hash
}

/// The versioned hashes of KZG commitments, in order.
pub fn versioned_hashes(commitments: &Vec<[u8; 48]>) -> (result: Vec<Hash256>)
    ensures
        result@.len() == commitments@.len(),
        forall|i: int|
            0 <= i < result@.len() ==> (#[trigger] result@[i])@ == versioned_hash(commitments@[i]@),
        forall|i: int, j: int|
            0 <= i < result@.len() && 0 <= j < 32 ==> #[trigger] result@[i]@[j] == (if j == 0 {
                1
            } else {
                sha256(commitments@[i]@)@[j]
            }),
{
    let mut hashes: Vec<Hash256> = Vec::new();
    let mut i: usize = 0;
    while i < commitments.len()
        invariant
            i <= commitments@.len(),
            hashes@.len() == i,
            forall|j: int|
                0 <= j < i ==> (#[trigger] hashes@[j])@ == versioned_hash(commitments@[j]@),
        decreases commitments@.len() - i,
    {
        hashes.push(kzg_commitment_to_versioned_hash(&commitments[i]));
        i += 1;
    }
    hashes
}

/// The places that hold something, in order.
pub open spec fn places<P>(items: Seq<Option<P>>) -> Seq<int>
    decreases items.len(),
{
    if items.len() == 0 {
        Seq::empty()
    } else {
        let earlier = places(items.drop_last());
        if items.last() is Some {
            earlier.push(items.len() - 1)
        } else {
            earlier
        }
    }
}

/// What is there, in order.
pub open spec fn present<P>(items: Seq<Option<P>>) -> Seq<P> {
    Seq::new(places(items).len(), |k: int| items[places(items)[k]]->0)
}

/// Places lie in range, in ascending order.
proof fn lemma_places<P>(items: Seq<Option<P>>)
    ensures
        places(items).len() <= items.len(),
        forall|k: int|
            0 <= k < places(items).len() ==> 0 <= #[trigger] places(items)[k] < items.len()
                && items[places(items)[k]] is Some,
    decreases items.len(),
{
    if items.len() > 0 {
        lemma_places(items.drop_last());
        assert forall|k: int| 0 <= k < places(items).len() implies 0 <= #[trigger] places(items)[k]
            < items.len() && items[places(items)[k]] is Some by {
            if k < places(items.drop_last()).len() {
                assert(places(items)[k] == places(items.drop_last())[k]);
            }
        }
    }
}

/// What is there of one item more.
proof fn lemma_present_grows<P>(items: Seq<Option<P>>, n: int)
    requires
        0 <= n < items.len(),
    ensures
        present(items.take(n + 1)) == (match items[n] {
            Some(item) => present(items.take(n)).push(item),
            None => present(items.take(n)),
        }),
{
    let next = items.take(n + 1);
    let before = items.take(n);
    assert(next.drop_last() =~= before);
    lemma_places(before);
    assert forall|k: int| 0 <= k < places(before).len() implies #[trigger] present(next)[k]
        == present(before)[k] by {
        assert(places(next)[k] == places(before)[k]);
    }
    if items[n] is Some {
        assert(present(next) =~= present(before).push(items[n]->0));
    } else {
        assert(present(next) =~= present(before));
    }
}

/// Counts what is there.
pub fn count_present<P>(items: &Vec<Option<P>>) -> (result: usize)
    ensures
        result == places(items@).len(),
        result <= items@.len(),
        result == items@.filter(|item: Option<P>| item is Some).len(),
{
    proof {
        law_present_is_a_filter(items@);
    }
    let mut count: usize = 0;
    let mut i: usize = 0;
    while i < items.len()
        invariant
            i <= items@.len(),
            count <= i,
            count == places(items@.take(i as int)).len(),
        decreases items@.len() - i,
    {
        assert(items@.take(i + 1).drop_last() =~= items@.take(i as int));
        if items[i].is_some() {
            count += 1;
        }
        i += 1;
    }
    assert(items@.take(i as int) =~= items@);
    count
}

/// Keeps what is there, in order.
pub fn keep_present<P>(items: Vec<Option<P>>) -> (result: Vec<P>)
    ensures
        result@ == present(items@),
        result@ == items@.filter(|item: Option<P>| item is Some).map_values(
            |item: Option<P>| item->0,
        ),
{
    let ghost all = items@;
    proof {
        law_present_is_a_filter(all);
    }
    let mut kept: Vec<P> = Vec::new();
    for item in it: items
        invariant
            it.seq() == all,
            kept@ == present(all.take(it.index() as int)),
            all.take(all.len() as int) == all,
    {
        proof {
            lemma_present_grows(all, it.index() as int);
        }
        if let Some(value) = item {
            kept.push(value);
        }
    }
    kept
}

/// Builds the sidecar of each blob that the execution layer supplied, in order, with `make`; stops
/// at the first that cannot be made.
pub fn build_blob_sidecars<
    T: EngineTypes,
    F: Fn(usize, T::BlobAndProofV1) -> Result<T::Blob, T::Error>,
>(response: Vec<Option<T::BlobAndProofV1>>, make: F) -> (result: Result<
    Vec<Indexed<T::Blob>>,
    FetchEngineBlobError<T::Error>,
>)
    requires
        forall|index: usize, blob: T::BlobAndProofV1| call_requires(make, (index, blob)),
    ensures
        match result {
            Ok(sidecars) => sidecars_made::<T, F>(
                make,
                response@,
                sidecars@,
                places(response@).len(),
            ),
            Err(e) => exists|n: nat, made: Seq<Indexed<T::Blob>>, x: T::Error|
                {
                    &&& n < places(response@).len()
                    &&& #[trigger] sidecars_made::<T, F>(make, response@, made, n)
                    &&& call_ensures(
                        make,
                        (
                            places(response@)[n as int] as usize,
                            response@[places(response@)[n as int]]->0,
                        ),
                        #[trigger] failed::<T>(x),
                    )
                    &&& e == FetchEngineBlobError::BlobSidecarError(x)
                },
        },
        // Each blob that is there gets its sidecar, under the blob's place in the response.
        result is Ok ==> {
            let sidecars = result->Ok_0@;
            &&& sidecars.len() == response@.filter(
                |item: Option<T::BlobAndProofV1>| item is Some,
            ).len()
            &&& forall|k: int|
                0 <= k < sidecars.len() ==> {
                    let i = (#[trigger] sidecars[k]).index;
                    &&& i < response@.len()
                    &&& response@[i as int] is Some
                    &&& call_ensures(
                        make,
                        (i as usize, response@[i as int]->0),
                        Ok::<T::Blob, T::Error>(sidecars[k].item),
                    )
                }
            &&& forall|k: int, l: int|
                0 <= k < l < sidecars.len() ==> (#[trigger] sidecars[k]).index < (
                #[trigger] sidecars[l]).index
        },
        // An error is that of a blob that is there.
        result is Err ==> exists|i: usize, x: T::Error|
            {
                &&& i < response@.len()
                &&& response@[i as int] is Some
                &&& #[trigger] call_ensures(
                    make,
                    (i, response@[i as int]->0),
                    Err::<T::Blob, T::Error>(x),
                )
                &&& result->Err_0 == FetchEngineBlobError::BlobSidecarError(x)
            },
{
    let ghost all = response@;
    let mut sidecars: Vec<Indexed<T::Blob>> = Vec::with_capacity(response.len());
    let mut index: usize = 0;
    for item in it: response
        invariant
            it.seq() == all,
            index == it.index(),
            all.len() <= usize::MAX,
            forall|index: usize, blob: T::BlobAndProofV1| call_requires(make, (index, blob)),
            sidecars_made::<T, F>(make, all, sidecars@, places(all.take(index as int)).len()),
            places(all.take(index as int)).is_prefix_of(places(all)),
            all.take(all.len() as int) == all,
    {
        proof {
            let next = all.take(index + 1);
            assert(next.drop_last() =~= all.take(index as int));
            lemma_places_grow(all, index + 1);
        }
        if let Some(blob) = item {
            let ghost n = places(all.take(index as int)).len();
            assert(places(all.take(index + 1))[n as int] == index);
            match make(index, blob) {
                Ok(made) => {
                    sidecars.push(Indexed { index: index as u64, item: made });
                    assert(sidecars_made::<T, F>(make, all, sidecars@, n + 1));
                },
                Err(x) => {
                    assert(call_ensures(make, (index, blob), failed::<T>(x)));
                    assert(call_ensures(
                        make,
                        (index, all[index as int]->0),
                        Err::<T::Blob, T::Error>(x),
                    ));
                    assert(sidecars_made::<T, F>(make, all, sidecars@, n));
                    return Err(FetchEngineBlobError::BlobSidecarError(x));
                },
            }
        }
        index += 1;
    }
    proof {
        law_every_blob_gets_its_sidecar::<T, F>(make, all, sidecars@);
    }
    Ok(sidecars)
}

/// A sidecar that could not be made.
pub open spec fn failed<T: EngineTypes>(x: T::Error) -> Result<T::Blob, T::Error> {
    Err(x)
}

/// Whether `sidecars` are what `make` returned for the first `n` blobs that are there.
pub open spec fn sidecars_made<
    T: EngineTypes,
    F: Fn(usize, T::BlobAndProofV1) -> Result<T::Blob, T::Error>,
>(
    make: F,
    response: Seq<Option<T::BlobAndProofV1>>,
    sidecars: Seq<Indexed<T::Blob>>,
    n: nat,
) -> bool {
    &&& sidecars.len() == n
    &&& forall|k: int|
        0 <= k < n ==> {
            &&& (#[trigger] sidecars[k]).index == places(response)[k]
            &&& call_ensures(
                make,
                (places(response)[k] as usize, response[places(response)[k]]->0),
                Ok::<T::Blob, T::Error>(sidecars[k].item),
            )
        }
}

/// The places of a longer prefix begin with those of a shorter one.
proof fn lemma_places_grow<P>(items: Seq<Option<P>>, n: int)
    requires
        0 <= n <= items.len(),
    ensures
        places(items.take(n)).is_prefix_of(places(items)),
    decreases items.len() - n,
{
    if n < items.len() {
        lemma_places_grow(items, n + 1);
        assert(items.take(n + 1).drop_last() =~= items.take(n));
        let shorter = places(items.take(n));
        let longer = places(items.take(n + 1));
        assert(shorter.is_prefix_of(longer));
        assert(shorter =~= places(items).subrange(0, shorter.len() as int));
    } else {
        assert(items.take(n) =~= items);
    }
}

/// The columns to import of those that were computed: those in custody that were neither observed
/// on gossip nor are known already.
pub open spec fn wanted_columns(
    custody_columns: Seq<ColumnIndex>,
    observed: Option<Set<u64>>,
    known: Option<Set<u64>>,
) -> Set<u64> {
    custody_columns.to_set().intersect(not_seen(observed)).intersect(not_seen(known))
}

/// Chooses the columns to import, in order, of the columns computed from blobs.
///
/// Only columns in custody are imported and published: a block counts as available only where the
/// number of its columns matches the number in custody.
pub fn compute_custody_columns_to_import<T: EngineTypes>(
    computed: Result<Vec<Indexed<T::PartialColumn>>, T::Error>,
    custody_columns: &Vec<ColumnIndex>,
    observed: &Option<HashSet<u64>>,
    known: &Option<Vec<u64>>,
) -> (result: Result<Vec<Indexed<T::PartialColumn>>, FetchEngineBlobError<T::Error>>)
    ensures
        match computed {
            Ok(columns) => result is Ok && result->Ok_0@ == selected(
                columns@,
                wanted_columns(custody_columns@, observed_set(*observed), set_of(*known)),
            ),
            Err(x) => result == Err::<Vec<Indexed<T::PartialColumn>>, _>(
                FetchEngineBlobError::DataColumnSidecarError(x),
            ),
        },
        // The columns in custody that were neither observed nor are known, in their order.
        computed is Ok ==> result is Ok && result->Ok_0@ == computed->Ok_0@.filter(
            |c: Indexed<T::PartialColumn>|
                {
                    &&& custody_columns@.contains(c.index)
                    &&& *observed is Some ==> !(*observed)->0@.contains(c.index)
                    &&& *known is Some ==> !(*known)->0@.contains(c.index)
                },
        ),
{
    let columns = match computed {
        Ok(columns) => columns,
        Err(x) => return Err(FetchEngineBlobError::DataColumnSidecarError(x)),
    };
    proof {
        let custody = custody_columns@.to_set();
        let unobserved = not_seen(observed_set(*observed));
        law_selections_combine(columns@, custody, unobserved);
        law_selections_combine(
            columns@,
            custody.intersect(unobserved),
            not_seen(set_of(*known)),
        );
        law_selection_is_a_filter(
            columns@,
            wanted_columns(custody_columns@, observed_set(*observed), set_of(*known)),
            |c: Indexed<T::PartialColumn>|
                {
                    &&& custody_columns@.contains(c.index)
                    &&& *observed is Some ==> !(*observed)->0@.contains(c.index)
                    &&& *known is Some ==> !(*known)->0@.contains(c.index)
                },
        );
    }
    Ok(drop_known(drop_observed(keep_custody(columns, custody_columns), observed), known))
}

/// Whether a blob's cell at a place is there, and its proof.
pub open spec fn has_cell<C, P>(blob: BlobCellsAndProofs<C, P>, place: int) -> bool {
    &&& place < blob.blob_cells@.len()
    &&& blob.blob_cells@[place] is Some
    &&& place < blob.proofs@.len()
    &&& blob.proofs@[place] is Some
}

/// A blob's cell at a place and its proof, where both are there.
pub open spec fn cell_at<C, P>(blob: BlobCellsAndProofs<C, P>, place: int) -> Option<(C, P)> {
    if has_cell(blob, place) {
        Some((blob.blob_cells@[place]->0, blob.proofs@[place]->0))
    } else {
        None
    }
}

/// The cell of each blob at a place, with its proof.
pub open spec fn cells_at<C, P>(blobs: Seq<BlobCellsAndProofs<C, P>>, place: int) -> Seq<
    Option<(C, P)>,
> {
    Seq::new(blobs.len(), |b: int| cell_at(blobs[b], place))
}

/// How many blobs have their cell at a place.
pub open spec fn cells_present<C, P>(blobs: Seq<BlobCellsAndProofs<C, P>>, place: int) -> nat {
    places(cells_at(blobs, place)).len()
}

/// Of each blob, whether it has its cell at a place.
pub open spec fn presence<C, P>(blobs: Seq<BlobCellsAndProofs<C, P>>, place: int) -> Seq<bool> {
    Seq::new(blobs.len(), |b: int| has_cell(blobs[b], place))
}

/// The first of each pair.
pub open spec fn firsts<A, B>(pairs: Seq<(A, B)>) -> Seq<A> {
    Seq::new(pairs.len(), |i: int| pairs[i].0)
}

/// The second of each pair.
pub open spec fn seconds<A, B>(pairs: Seq<(A, B)>) -> Seq<B> {
    Seq::new(pairs.len(), |i: int| pairs[i].1)
}

/// Counts the blobs that have their cell at a place.
fn count_cells<C, P>(blobs: &Vec<BlobCellsAndProofs<C, P>>, place: usize) -> (result: usize)
    ensures
        result == cells_present(blobs@, place as int),
{
    let ghost cells = cells_at(blobs@, place as int);
    let mut count: usize = 0;
    let mut b: usize = 0;
    while b < blobs.len()
        invariant
            b <= blobs@.len(),
            count <= b,
            cells == cells_at(blobs@, place as int),
            count == places(cells.take(b as int)).len(),
        decreases blobs@.len() - b,
    {
        assert(cells.take(b + 1).drop_last() =~= cells.take(b as int));
        let blob_cells = &blobs[b].blob_cells;
        let proofs = &blobs[b].proofs;
        if place < blob_cells.len() && blob_cells[place].is_some() && place < proofs.len()
            && proofs[place].is_some() {
            count += 1;
        }
        b += 1;
    }
    assert(cells.take(b as int) =~= cells);
    count
}

/// Takes a blob's cell at a place and its proof, where both are there.
fn take_cell<C, P>(blob: &mut BlobCellsAndProofs<C, P>, place: usize) -> (result: Option<(C, P)>)
    ensures
        result == cell_at(*old(blob), place as int),
        forall|other: int|
            0 <= other && other != place ==> #[trigger] cell_at(*final(blob), other) == cell_at(
                *old(blob),
                other,
            ),
{
    if place < blob.blob_cells.len() && blob.blob_cells[place].is_some() && place
        < blob.proofs.len() && blob.proofs[place].is_some() {
        let cell = blob.blob_cells[place].take();
        let proof_of_cell = blob.proofs[place].take();
        match (cell, proof_of_cell) {
            (Some(cell), Some(proof_of_cell)) => Some((cell, proof_of_cell)),
            _ => None,
        }
    } else {
        None
    }
}

/// Takes the cells of blobs at a place and their proofs, in the order of the blobs; also tells
/// which blobs have them.
fn take_column<C, P>(blobs: &mut Vec<BlobCellsAndProofs<C, P>>, place: usize) -> (result: (
    Vec<bool>,
    Vec<C>,
    Vec<P>,
))
    ensures
        result.0@ == presence(old(blobs)@, place as int),
        result.1@ == firsts(present(cells_at(old(blobs)@, place as int))),
        result.2@ == seconds(present(cells_at(old(blobs)@, place as int))),
        forall|other: int|
            0 <= other && other != place ==> #[trigger] cells_at(final(blobs)@, other) == cells_at(
                old(blobs)@,
                other,
            ),
{
    let ghost all = blobs@;
    let ghost column = cells_at(all, place as int);
    let mut flags: Vec<bool> = Vec::new();
    let mut cells: Vec<C> = Vec::new();
    let mut proofs: Vec<P> = Vec::new();
    let mut b: usize = 0;
    while b < blobs.len()
        invariant
            b <= blobs@.len() == all.len(),
            column == cells_at(all, place as int),
            flags@ == presence(all, place as int).take(b as int),
            cells@ == firsts(present(column.take(b as int))),
            proofs@ == seconds(present(column.take(b as int))),
            forall|i: int| b <= i < all.len() ==> #[trigger] blobs@[i] == all[i],
            forall|i: int, other: int|
                0 <= i < all.len() && 0 <= other && other != place ==> #[trigger] cell_at(
                    blobs@[i],
                    other,
                ) == cell_at(all[i], other),
        decreases all.len() - b,
    {
        let ghost before = blobs@;
        proof {
            lemma_present_grows(column, b as int);
        }
        match take_cell(&mut blobs[b], place) {
            Some((cell, proof_of_cell)) => {
                flags.push(true);
                cells.push(cell);
                proofs.push(proof_of_cell);
            },
            None => {
                flags.push(false);
            },
        }
        proof {
            assert(flags@ =~= presence(all, place as int).take(b + 1));
            assert(cells@ =~= firsts(present(column.take(b + 1))));
            assert(proofs@ =~= seconds(present(column.take(b + 1))));
            assert forall|i: int, other: int|
                0 <= i < all.len() && 0 <= other && other != place implies #[trigger] cell_at(
                blobs@[i],
                other,
            ) == cell_at(all[i], other) by {
                assert(cell_at(before[i], other) == cell_at(all[i], other));
            }
        }
        b += 1;
    }
    proof {
        assert(column.take(b as int) =~= column);
        assert(presence(all, place as int).take(b as int) =~= presence(all, place as int));
        assert forall|other: int| 0 <= other && other != place implies #[trigger] cells_at(
            blobs@,
            other,
        ) == cells_at(all, other) by {
            assert(cells_at(blobs@, other) =~= cells_at(all, other));
        }
    }
    (flags, cells, proofs)
}

/// The indices that were neither observed on gossip nor are known already.
pub open spec fn new_columns(observed: Option<Set<u64>>, known: Option<Set<u64>>) -> Set<u64> {
    not_seen(observed).intersect(not_seen(known))
}

/// The columns that cells came for, of the first `n` columns in custody and in their order, each
/// once: those that are new and that some blob has its cell of. The cells of a column stand at its
/// place among the columns that were asked for. A column out of range was not asked for.
pub open spec fn columns_with_cells<C, P>(
    blobs: Seq<BlobCellsAndProofs<C, P>>,
    custody_columns: Seq<ColumnIndex>,
    new: Set<u64>,
    n: nat,
) -> Seq<ColumnIndex>
    decreases n,
{
    if n == 0 {
        Seq::empty()
    } else {
        let earlier = columns_with_cells(blobs, custody_columns, new, (n - 1) as nat);
        let column = custody_columns[n - 1];
        if column < BITARRAY_BITS && new.contains(column) && !custody_columns.take(
            n - 1,
        ).contains(column) && cells_present(blobs, place_of(custody_columns, column) as int) > 0 {
            earlier.push(column)
        } else {
            earlier
        }
    }
}

/// Finds the columns that cells came for.
fn find_columns<C, P>(
    blobs: &Vec<BlobCellsAndProofs<C, P>>,
    custody_columns: &Vec<ColumnIndex>,
    observed: &Option<HashSet<u64>>,
    known: &Option<Vec<u64>>,
) -> (result: Vec<ColumnIndex>)
    ensures
        result@ == columns_with_cells(
            blobs@,
            custody_columns@,
            new_columns(observed_set(*observed), set_of(*known)),
            custody_columns@.len(),
        ),
{
    let ghost new = new_columns(observed_set(*observed), set_of(*known));
    let mut columns: Vec<ColumnIndex> = Vec::new();
    let mut earlier: Vec<ColumnIndex> = Vec::new();
    let mut k: usize = 0;
    while k < custody_columns.len()
        invariant
            k <= custody_columns@.len(),
            new == new_columns(observed_set(*observed), set_of(*known)),
            earlier@ == custody_columns@.take(k as int),
            columns@ == columns_with_cells(blobs@, custody_columns@, new, k as nat),
        decreases custody_columns@.len() - k,
    {
        let column: u64 = custody_columns[k];
        let was_observed: bool = match observed {
            Some(observed) => observed.contains(&column),
            None => false,
        };
        let is_known: bool = match known {
            Some(known) => contains_index(known, column),
            None => false,
        };
        let is_first: bool = !contains_index(&earlier, column);
        if column < BITARRAY_BITS as u64 && !was_observed && !is_known && is_first {
            let place: usize = find_place(custody_columns, column);
            if count_cells(blobs, place) > 0 {
                columns.push(column);
            }
        }
        assert(custody_columns@.take(k + 1) =~= custody_columns@.take(k as int).push(column));
        earlier.push(column);
        k += 1;
    }
    columns
}

/// The columns that cells came for are distinct, in range and in custody.
proof fn lemma_columns_with_cells<C, P>(
    blobs: Seq<BlobCellsAndProofs<C, P>>,
    custody_columns: Seq<ColumnIndex>,
    new: Set<u64>,
    n: nat,
    column: ColumnIndex,
)
    requires
        n <= custody_columns.len(),
    ensures
        columns_with_cells(blobs, custody_columns, new, n).no_duplicates(),
        columns_with_cells(blobs, custody_columns, new, n).contains(column) <==> {
            &&& custody_columns.take(n as int).contains(column)
            &&& column < BITARRAY_BITS
            &&& new.contains(column)
            &&& cells_present(blobs, place_of(custody_columns, column) as int) > 0
        },
    decreases n,
{
    let columns = columns_with_cells(blobs, custody_columns, new, n);
    if n == 0 {
        assert(columns =~= Seq::empty());
    } else {
        let last = custody_columns[n - 1];
        let earlier = columns_with_cells(blobs, custody_columns, new, (n - 1) as nat);
        lemma_columns_with_cells(blobs, custody_columns, new, (n - 1) as nat, column);
        lemma_columns_with_cells(blobs, custody_columns, new, (n - 1) as nat, last);
        assert(custody_columns.take(n as int) =~= custody_columns.take(n - 1).push(last));
        lemma_seq_contains_after_push(custody_columns.take(n - 1), last, column);
        lemma_seq_contains_after_push(earlier, last, column);
        if columns.len() > earlier.len() {
            assert(!earlier.contains(last));
            assert forall|i: int, j: int|
                0 <= i < columns.len() && 0 <= j < columns.len() && i != j implies columns[i]
                != columns[j] by {
                if i < earlier.len() {
                    assert(earlier.contains(earlier[i]));
                }
                if j < earlier.len() {
                    assert(earlier.contains(earlier[j]));
                }
            }
        }
    }
}

/// The first column from place `k` on with more cells than a column may have.
pub open spec fn first_oversized<C, P>(
    blobs: Seq<BlobCellsAndProofs<C, P>>,
    custody_columns: Seq<ColumnIndex>,
    columns: Seq<ColumnIndex>,
    k: nat,
) -> Option<ColumnIndex>
    decreases columns.len() - k,
{
    if k >= columns.len() {
        None
    } else if cells_present(blobs, place_of(custody_columns, columns[k as int]) as int)
        > MAX_BLOB_COMMITMENTS_PER_BLOCK {
        Some(columns[k as int])
    } else {
        first_oversized(blobs, custody_columns, columns, k + 1)
    }
}

/// The message for a column with more cells than a column may have.
pub open spec fn oversized_message(cells: nat) -> Seq<char> {
    "Failed to create column: OutOfBounds { i: "@ + decimal(cells) + ", len: 4096 }"@
}

/// Whether `made` is what `make` returned for a column: for which blobs have their cell at a place,
/// and for those cells and their proofs, in the order of the blobs.
pub open spec fn column_made<
    T: EngineTypes,
    F: Fn(ColumnIndex, Vec<bool>, Vec<T::Cell>, Vec<T::Proof>) -> Result<
        T::PartialColumn,
        T::Error,
    >,
>(
    make: F,
    column: ColumnIndex,
    blobs: Seq<BlobCellsAndProofs<T::Cell, T::Proof>>,
    place: int,
    made: Result<T::PartialColumn, T::Error>,
) -> bool {
    exists|flags: Vec<bool>, cells: Vec<T::Cell>, proofs: Vec<T::Proof>|
        {
            &&& flags@ == presence(blobs, place)
            &&& cells@ == firsts(present(cells_at(blobs, place)))
            &&& proofs@ == seconds(present(cells_at(blobs, place)))
            &&& #[trigger] call_ensures(make, (column, flags, cells, proofs), made)
        }
}

/// Whether `made` are what `make` returned for the first `n` of columns.
pub open spec fn columns_made<
    T: EngineTypes,
    F: Fn(ColumnIndex, Vec<bool>, Vec<T::Cell>, Vec<T::Proof>) -> Result<
        T::PartialColumn,
        T::Error,
    >,
>(
    make: F,
    blobs: Seq<BlobCellsAndProofs<T::Cell, T::Proof>>,
    custody_columns: Seq<ColumnIndex>,
    columns: Seq<ColumnIndex>,
    made: Seq<Indexed<T::PartialColumn>>,
    n: nat,
) -> bool {
    &&& made.len() == n
    &&& forall|k: int|
        0 <= k < n ==> {
            &&& (#[trigger] made[k]).index == columns[k]
            &&& column_made::<T, F>(
                make,
                columns[k],
                blobs,
                place_of(custody_columns, columns[k]) as int,
                Ok(made[k].item),
            )
        }
}

/// Makes columns of the cells that came for the columns in custody, with `make`: one for each that
/// is new and that some blob has its cell of, in the order of custody.
///
/// Each blob's cells and proofs stand at the places of the columns among those that were asked for.
/// `make` is handed the column's index, of each blob whether its cell and proof are there, and the
/// cells and proofs that are, in the order of the blobs. A column with more cells than a column may
/// have is refused before any column is made; the first column that cannot be made ends it.
pub fn compute_custody_columns_from_cells<
    T: EngineTypes,
    F: Fn(ColumnIndex, Vec<bool>, Vec<T::Cell>, Vec<T::Proof>) -> Result<
        T::PartialColumn,
        T::Error,
    >,
>(
    blobs: Vec<BlobCellsAndProofs<T::Cell, T::Proof>>,
    custody_columns: &Vec<ColumnIndex>,
    observed: &Option<HashSet<u64>>,
    known: &Option<Vec<u64>>,
    make: F,
) -> (result: Result<Vec<Indexed<T::PartialColumn>>, FetchEngineBlobError<T::Error>>)
    requires
        forall|column: ColumnIndex, flags: Vec<bool>, cells: Vec<T::Cell>, proofs: Vec<T::Proof>|
            call_requires(make, (column, flags, cells, proofs)),
    ensures
        ({
            let columns = columns_with_cells(
                blobs@,
                custody_columns@,
                new_columns(observed_set(*observed), set_of(*known)),
                custody_columns@.len(),
            );
            match first_oversized(blobs@, custody_columns@, columns, 0) {
                Some(column) => {
                    &&& result matches Err(FetchEngineBlobError::InternalError(message))
                    &&& message@ == oversized_message(
                        cells_present(blobs@, place_of(custody_columns@, column) as int),
                    )
                },
                None => match result {
                    Ok(made) => columns_made::<T, F>(
                        make,
                        blobs@,
                        custody_columns@,
                        columns,
                        made@,
                        columns.len(),
                    ),
                    Err(e) => exists|n: nat, made: Seq<Indexed<T::PartialColumn>>, x: T::Error|
                        {
                            &&& n < columns.len()
                            &&& #[trigger] columns_made::<T, F>(
                                make,
                                blobs@,
                                custody_columns@,
                                columns,
                                made,
                                n,
                            )
                            &&& #[trigger] column_made::<T, F>(
                                make,
                                columns[n as int],
                                blobs@,
                                place_of(custody_columns@, columns[n as int]) as int,
                                Err(x),
                            )
                            &&& e == FetchEngineBlobError::DataColumnSidecarError(x)
                        },
                },
            }
        }),
        // Each column in custody that was neither observed nor is known and that some blob has its
        // cell of, with the proof, is made once, and no other column is.
        result is Ok ==> {
            let made = Seq::new(result->Ok_0@.len(), |k: int| result->Ok_0@[k].index);
            &&& made.no_duplicates()
            &&& forall|column: ColumnIndex| #[trigger]
                made.contains(column) <==> {
                    let place = place_of(custody_columns@, column) as int;
                    &&& custody_columns@.contains(column)
                    &&& column < 128
                    &&& *observed is Some ==> !(*observed)->0@.contains(column)
                    &&& *known is Some ==> !(*known)->0@.contains(column)
                    &&& exists|b: int|
                        {
                            &&& 0 <= b < blobs@.len()
                            &&& place < (#[trigger] blobs@[b]).blob_cells@.len()
                            &&& blobs@[b].blob_cells@[place] is Some
                            &&& place < blobs@[b].proofs@.len()
                            &&& blobs@[b].proofs@[place] is Some
                        }
                }
        },
        // Each is what is made of its cells.
        result is Ok ==> forall|k: int|
            0 <= k < result->Ok_0@.len() ==> column_made::<T, F>(
                make,
                (#[trigger] result->Ok_0@[k]).index,
                blobs@,
                place_of(custody_columns@, result->Ok_0@[k].index) as int,
                Ok(result->Ok_0@[k].item),
            ),
        // An error is that of making a column in custody, or for one with too many cells.
        result is Err ==> exists|column: ColumnIndex|
            {
                let place = place_of(custody_columns@, column) as int;
                &&& #[trigger] custody_columns@.contains(column)
                &&& *observed is Some ==> !(*observed)->0@.contains(column)
                &&& *known is Some ==> !(*known)->0@.contains(column)
                &&& match result->Err_0 {
                    FetchEngineBlobError::InternalError(message) => {
                        &&& cells_present(blobs@, place) > 4096
                        &&& message@ == "Failed to create column: OutOfBounds { i: "@ + decimal(
                            cells_present(blobs@, place),
                        ) + ", len: 4096 }"@
                    },
                    FetchEngineBlobError::DataColumnSidecarError(x) => column_made::<T, F>(
                        make,
                        column,
                        blobs@,
                        place,
                        Err(x),
                    ),
                    _ => false,
                }
            },
        // Of up to as many blobs as a block may have, no column is refused for its cells.
        blobs@.len() <= 4096 ==> !(result is Err && result->Err_0 is InternalError),
{
    let ghost custody = custody_columns@;
    let columns = find_columns(&blobs, custody_columns, observed, known);
    proof {
        if blobs@.len() <= 4096 {
            law_few_blobs_are_never_refused(blobs@, custody, columns@, 0);
        }
    }
    let mut k: usize = 0;
    while k < columns.len()
        invariant
            k <= columns@.len(),
            custody == custody_columns@,
            blobs@.len() <= 4096 ==> first_oversized(blobs@, custody, columns@, 0) is None,
            columns@ == columns_with_cells(
                blobs@,
                custody,
                new_columns(observed_set(*observed), set_of(*known)),
                custody.len(),
            ),
            first_oversized(blobs@, custody, columns@, 0) == first_oversized(
                blobs@,
                custody,
                columns@,
                k as nat,
            ),
        decreases columns@.len() - k,
    {
        let cells: usize = count_cells(&blobs, find_place(custody_columns, columns[k]));
        if cells > MAX_BLOB_COMMITMENTS_PER_BLOCK {
            proof {
                law_one_column_per_new_custody_column(
                    blobs@,
                    custody,
                    observed_set(*observed),
                    set_of(*known),
                    columns@[k as int],
                );
                assert(columns@.contains(columns@[k as int]));
                assert(custody.contains(columns@[k as int]));
            }
            return Err(
                FetchEngineBlobError::InternalError(
                    with_decimal(
                        "Failed to create column: OutOfBounds { i: ",
                        cells as u64,
                        ", len: 4096 }",
                    ),
                ),
            );
        }
        k += 1;
    }
    proof {
        let new = new_columns(observed_set(*observed), set_of(*known));
        assert(custody.take(custody.len() as int) =~= custody);
        lemma_columns_with_cells(blobs@, custody, new, custody.len(), 0);
        assert forall|j: int| 0 <= j < columns@.len() implies (#[trigger] columns@[j])
            < BITARRAY_BITS && custody.contains(columns@[j]) by {
            lemma_columns_with_cells(blobs@, custody, new, custody.len(), columns@[j]);
            assert(columns@.contains(columns@[j]));
        }
    }
    let ghost all = blobs@;
    let result = make_columns::<T, F>(blobs, custody_columns, &columns, make);
    proof {
        if result is Err {
            let (n, made, x) = choose|n: nat, made: Seq<Indexed<T::PartialColumn>>, x: T::Error|
                {
                    &&& n < columns@.len()
                    &&& #[trigger] columns_made::<T, F>(make, all, custody, columns@, made, n)
                    &&& #[trigger] column_made::<T, F>(
                        make,
                        columns@[n as int],
                        all,
                        place_of(custody, columns@[n as int]) as int,
                        Err(x),
                    )
                    &&& result->Err_0 == FetchEngineBlobError::DataColumnSidecarError(x)
                };
            law_one_column_per_new_custody_column(
                all,
                custody,
                observed_set(*observed),
                set_of(*known),
                columns@[n as int],
            );
            assert(columns@.contains(columns@[n as int]));
            assert(custody.contains(columns@[n as int]));
        }
        if result is Ok {
            let made = Seq::new(result->Ok_0@.len(), |k: int| result->Ok_0@[k].index);
            assert(made =~= columns@);
            assert forall|column: ColumnIndex| #[trigger] made.contains(column) <==> {
                let place = place_of(custody, column) as int;
                &&& custody.contains(column)
                &&& column < 128
                &&& *observed is Some ==> !(*observed)->0@.contains(column)
                &&& *known is Some ==> !(*known)->0@.contains(column)
                &&& exists|b: int|
                    {
                        &&& 0 <= b < all.len()
                        &&& place < (#[trigger] all[b]).blob_cells@.len()
                        &&& all[b].blob_cells@[place] is Some
                        &&& place < all[b].proofs@.len()
                        &&& all[b].proofs@[place] is Some
                    }
            } by {
                law_one_column_per_new_custody_column(
                    all,
                    custody,
                    observed_set(*observed),
                    set_of(*known),
                    column,
                );
            }
        }
    }
    result
}

/// Makes columns of the cells that stand at their places, with `make`; stops at the first that
/// cannot be made.
fn make_columns<
    T: EngineTypes,
    F: Fn(ColumnIndex, Vec<bool>, Vec<T::Cell>, Vec<T::Proof>) -> Result<
        T::PartialColumn,
        T::Error,
    >,
>(
    blobs: Vec<BlobCellsAndProofs<T::Cell, T::Proof>>,
    custody_columns: &Vec<ColumnIndex>,
    columns: &Vec<ColumnIndex>,
    make: F,
) -> (result: Result<Vec<Indexed<T::PartialColumn>>, FetchEngineBlobError<T::Error>>)
    requires
        forall|column: ColumnIndex, flags: Vec<bool>, cells: Vec<T::Cell>, proofs: Vec<T::Proof>|
            call_requires(make, (column, flags, cells, proofs)),
        columns@.no_duplicates(),
        forall|k: int|
            0 <= k < columns@.len() ==> (#[trigger] columns@[k]) < BITARRAY_BITS
                && custody_columns@.contains(columns@[k]),
    ensures
        match result {
            Ok(made) => columns_made::<T, F>(
                make,
                blobs@,
                custody_columns@,
                columns@,
                made@,
                columns@.len(),
            ),
            Err(e) => exists|n: nat, made: Seq<Indexed<T::PartialColumn>>, x: T::Error|
                {
                    &&& n < columns@.len()
                    &&& #[trigger] columns_made::<T, F>(
                        make,
                        blobs@,
                        custody_columns@,
                        columns@,
                        made,
                        n,
                    )
                    &&& #[trigger] column_made::<T, F>(
                        make,
                        columns@[n as int],
                        blobs@,
                        place_of(custody_columns@, columns@[n as int]) as int,
                        Err(x),
                    )
                    &&& e == FetchEngineBlobError::DataColumnSidecarError(x)
                },
        },
{
    let ghost all = blobs@;
    let ghost custody = custody_columns@;
    let mut left = blobs;
    let mut made: Vec<Indexed<T::PartialColumn>> = Vec::new();
    let mut k: usize = 0;
    while k < columns.len()
        invariant
            k <= columns@.len(),
            all == blobs@,
            custody == custody_columns@,
            forall|column: ColumnIndex, flags: Vec<bool>, cells: Vec<T::Cell>, proofs: Vec<
                T::Proof,
            >| call_requires(make, (column, flags, cells, proofs)),
            columns@.no_duplicates(),
            forall|j: int|
                0 <= j < columns@.len() ==> (#[trigger] columns@[j]) < BITARRAY_BITS
                    && custody.contains(columns@[j]),
            columns_made::<T, F>(make, all, custody, columns@, made@, k as nat),
            forall|j: int|
                k <= j < columns@.len() ==> cells_at(
                    left@,
                    place_of(custody, #[trigger] columns@[j]) as int,
                ) == cells_at(all, place_of(custody, columns@[j]) as int),
        decreases columns@.len() - k,
    {
        let column: u64 = columns[k];
        let place: usize = find_place(custody_columns, column);
        let ghost before = left@;
        proof {
            assert(cells_at(before, place as int) == cells_at(all, place as int)) by {
                assert(columns@[k as int] == column);
            }
            lemma_presence(before, all, place as int);
        }
        let (flags, cells, proofs) = take_column(&mut left, place);
        proof {
            assert forall|j: int| k < j < columns@.len() implies cells_at(
                left@,
                place_of(custody, #[trigger] columns@[j]) as int,
            ) == cells_at(all, place_of(custody, columns@[j]) as int) by {
                assert(columns@[j] != columns@[k as int]);
                if columns@[j] < column {
                    law_places_are_ordered(custody, columns@[j], column);
                } else {
                    law_places_are_ordered(custody, column, columns@[j]);
                }
            }
        }
        let answer = make(column, flags, cells, proofs);
        assert(column_made::<T, F>(make, column, all, place as int, answer));
        match answer {
            Ok(item) => {
                let ghost earlier = made@;
                made.push(Indexed { index: column, item });
                assert forall|j: int| 0 <= j < k + 1 implies {
                    &&& (#[trigger] made@[j]).index == columns@[j]
                    &&& column_made::<T, F>(
                        make,
                        columns@[j],
                        all,
                        place_of(custody, columns@[j]) as int,
                        Ok(made@[j].item),
                    )
                } by {
                    if j < k {
                        assert(made@[j] == earlier[j]);
                    }
                }
            },
            Err(x) => {
                assert(columns_made::<T, F>(make, all, custody, columns@, made@, k as nat));
                assert(column_made::<T, F>(
                    make,
                    columns@[k as int],
                    all,
                    place_of(custody, columns@[k as int]) as int,
                    Err(x),
                ));
                return Err(FetchEngineBlobError::DataColumnSidecarError(x));
            },
        }
        k += 1;
    }
    Ok(made)
}

/// Which blobs have their cell at a place is told by the cells there.
proof fn lemma_presence<C, P>(
    first: Seq<BlobCellsAndProofs<C, P>>,
    second: Seq<BlobCellsAndProofs<C, P>>,
    place: int,
)
    requires
        cells_at(first, place) == cells_at(second, place),
    ensures
        presence(first, place) == presence(second, place),
{
    assert(first.len() == cells_at(first, place).len());
    assert(second.len() == cells_at(second, place).len());
    assert forall|b: int| 0 <= b < first.len() implies #[trigger] presence(first, place)[b]
        == presence(second, place)[b] by {
        assert(cells_at(first, place)[b] == cells_at(second, place)[b]);
    }
    assert(presence(first, place) =~= presence(second, place));
}

/// A column is made exactly where it is in custody and in range, is new, and some blob has its cell
/// at the column's place; and each such column is made once.
pub proof fn law_one_column_per_new_custody_column<C, P>(
    blobs: Seq<BlobCellsAndProofs<C, P>>,
    custody_columns: Seq<ColumnIndex>,
    observed: Option<Set<u64>>,
    known: Option<Set<u64>>,
    column: ColumnIndex,
)
    ensures
        ({
            let columns = columns_with_cells(
                blobs,
                custody_columns,
                new_columns(observed, known),
                custody_columns.len(),
            );
            &&& columns.no_duplicates()
            &&& columns.contains(column) <==> {
                &&& custody_columns.contains(column)
                &&& column < 128
                &&& observed is Some ==> !observed->0.contains(column)
                &&& known is Some ==> !known->0.contains(column)
                &&& exists|b: int|
                    {
                        let place = place_of(custody_columns, column) as int;
                        &&& 0 <= b < blobs.len()
                        &&& place < (#[trigger] blobs[b]).blob_cells@.len()
                        &&& blobs[b].blob_cells@[place] is Some
                        &&& place < blobs[b].proofs@.len()
                        &&& blobs[b].proofs@[place] is Some
                    }
            }
        }),
{
    let place = place_of(custody_columns, column) as int;
    lemma_columns_with_cells(
        blobs,
        custody_columns,
        new_columns(observed, known),
        custody_columns.len(),
        column,
    );
    assert(custody_columns.take(custody_columns.len() as int) =~= custody_columns);
    let cells = cells_at(blobs, place);
    lemma_places(cells);
    if places(cells).len() > 0 {
        let b = places(cells)[0];
        assert(cells[b] is Some);
        assert(has_cell(blobs[b], place));
    }
    if exists|b: int| 0 <= b < blobs.len() && has_cell(#[trigger] blobs[b], place) {
        let b = choose|b: int| 0 <= b < blobs.len() && has_cell(#[trigger] blobs[b], place);
        assert(cells[b] is Some);
        lemma_some_place(cells, b);
    }
}

/// Where something is there, there is a place of it.
proof fn lemma_some_place<P>(items: Seq<Option<P>>, i: int)
    requires
        0 <= i < items.len(),
        items[i] is Some,
    ensures
        places(items).len() > 0,
    decreases items.len(),
{
    if i < items.len() - 1 {
        lemma_some_place(items.drop_last(), i);
    }
}

/// Where every blob has its cells of all columns in custody, and no column was seen, all columns in
/// custody are made, each of the cells of all blobs.
pub proof fn law_all_cells_make_all_columns<C, P>(
    blobs: Seq<BlobCellsAndProofs<C, P>>,
    custody_columns: Seq<ColumnIndex>,
    observed: Option<Set<u64>>,
    known: Option<Set<u64>>,
)
    requires
        blobs.len() > 0,
        forall|i: int, j: int|
            0 <= i < j < custody_columns.len() ==> custody_columns[i] < custody_columns[j],
        forall|i: int|
            0 <= i < custody_columns.len() ==> (#[trigger] custody_columns[i]) < BITARRAY_BITS
                && new_columns(observed, known).contains(custody_columns[i]),
        forall|b: int, place: int|
            0 <= b < blobs.len() && 0 <= place < custody_columns.len() ==> #[trigger] has_cell(
                blobs[b],
                place,
            ),
    ensures
        columns_with_cells(
            blobs,
            custody_columns,
            new_columns(observed, known),
            custody_columns.len(),
        ) == custody_columns,
        forall|k: int|
            0 <= k < custody_columns.len() ==> cells_present(
                blobs,
                place_of(custody_columns, #[trigger] custody_columns[k]) as int,
            ) == blobs.len(),
{
    assert forall|k: int| 0 <= k < custody_columns.len() implies cells_present(
        blobs,
        place_of(custody_columns, #[trigger] custody_columns[k]) as int,
    ) == blobs.len() by {
        law_places_in_ascending_order(custody_columns, k);
        let cells = cells_at(blobs, k);
        assert forall|b: int| 0 <= b < cells.len() implies #[trigger] cells[b] is Some by {
            assert(has_cell(blobs[b], k));
        }
        lemma_all_places(cells);
    }
    lemma_all_columns(blobs, custody_columns, new_columns(observed, known), custody_columns.len());
    assert(custody_columns.take(custody_columns.len() as int) =~= custody_columns);
}

/// Where there are no more blobs than a column may have cells, no column is refused for its cells.
pub proof fn law_few_blobs_are_never_refused<C, P>(
    blobs: Seq<BlobCellsAndProofs<C, P>>,
    custody_columns: Seq<ColumnIndex>,
    columns: Seq<ColumnIndex>,
    k: nat,
)
    requires
        blobs.len() <= MAX_BLOB_COMMITMENTS_PER_BLOCK,
    ensures
        first_oversized(blobs, custody_columns, columns, k) is None,
    decreases columns.len() - k,
{
    if k < columns.len() {
        let place = place_of(custody_columns, columns[k as int]) as int;
        lemma_places(cells_at(blobs, place));
        law_few_blobs_are_never_refused(blobs, custody_columns, columns, k + 1);
    }
}

/// Where everything is there, there are as many places as items.
proof fn lemma_all_places<P>(items: Seq<Option<P>>)
    requires
        forall|i: int| 0 <= i < items.len() ==> #[trigger] items[i] is Some,
    ensures
        places(items).len() == items.len(),
    decreases items.len(),
{
    if items.len() > 0 {
        lemma_all_places(items.drop_last());
    }
}

/// Where every column is in range, is new and has cells, and none occurs twice, cells came for all.
proof fn lemma_all_columns<C, P>(
    blobs: Seq<BlobCellsAndProofs<C, P>>,
    custody_columns: Seq<ColumnIndex>,
    new: Set<u64>,
    n: nat,
)
    requires
        n <= custody_columns.len(),
        blobs.len() > 0,
        forall|i: int, j: int|
            0 <= i < j < custody_columns.len() ==> custody_columns[i] < custody_columns[j],
        forall|i: int|
            0 <= i < custody_columns.len() ==> (#[trigger] custody_columns[i]) < BITARRAY_BITS
                && new.contains(custody_columns[i]) && cells_present(
                blobs,
                place_of(custody_columns, custody_columns[i]) as int,
            ) == blobs.len(),
    ensures
        columns_with_cells(blobs, custody_columns, new, n) == custody_columns.take(n as int),
    decreases n,
{
    if n == 0 {
        assert(custody_columns.take(0) =~= Seq::empty());
    } else {
        lemma_all_columns(blobs, custody_columns, new, (n - 1) as nat);
        let column = custody_columns[n - 1];
        let earlier = custody_columns.take(n - 1);
        if earlier.contains(column) {
            let i = earlier.index_of(column);
            assert(custody_columns[i] < custody_columns[n - 1]);
        }
        assert(earlier.push(column) =~= custody_columns.take(n as int));
    }
}

/// What a fetch is for.
#[derive(Debug)]
pub struct FetchContext {
    pub block_root: Hash256,
    pub slot: Slot,
    /// The versioned hashes of the blobs of the block.
    pub versioned_hashes: Vec<Hash256>,
    /// The columns that this node has custody of.
    pub custody_columns: Vec<ColumnIndex>,
}

/// What merging the columns to import came to.
pub enum MergeOutcome<T: EngineTypes> {
    /// The columns went to the assembler of partial columns, which returned those that are full
    /// now, or refused.
    Assembled(Option<Vec<T::Column>>),
    /// There is no such assembler. Each column was turned into a full one where it is one.
    Converted(Vec<Option<T::Column>>),
}

/// How far a fetch is, and with that what is to be asked or done next.
pub enum FetchState<T: EngineTypes> {
    /// Ask the execution layer whether it supplies single cells.
    AskV4Support(FetchContext),
    /// Ask for the hash of the block's execution block.
    AskExecutionBlockHash(FetchContext),
    /// Ask the execution layer whether it supplies some of the blobs where it does not have all.
    AskV3Support(FetchContext),
    /// Request the blobs, each with one proof.
    RequestBlobsV1(FetchContext),
    /// Request all of the blobs or none, with the proofs for their cells.
    RequestBlobsV2(FetchContext),
    /// Request the blobs that are there, with the proofs for their cells.
    RequestBlobsV3(FetchContext),
    /// Request the cells of the columns that the bitarray holds, of the blobs of the execution
    /// block of the given hash.
    RequestCellsV4(FetchContext, Hash256, [u8; 16]),
    /// Ask whether the block has been imported, before sidecars are built.
    CheckImportedV1(FetchContext, Vec<Option<T::BlobAndProofV1>>),
    /// Build the sidecars of the blobs with [`build_blob_sidecars`].
    BuildSidecars(FetchContext, Vec<Option<T::BlobAndProofV1>>),
    /// Ask which blobs were observed on gossip.
    AskObservedBlobs(FetchContext, Vec<Indexed<T::Blob>>),
    /// Ask which blobs are known already.
    AskKnownBlobs(FetchContext, Vec<Indexed<T::Blob>>),
    /// Ask whether the block has been imported, before columns are computed.
    CheckImportedV2OrV3(FetchContext, Vec<Option<T::BlobAndProofV2>>),
    /// Compute columns and choose among them with [`compute_custody_columns_to_import`].
    ComputeColumns(FetchContext, Vec<Option<T::BlobAndProofV2>>),
    /// Ask whether the block has been imported, before columns are made of cells.
    CheckImportedV4(FetchContext, Vec<BlobCellsAndProofs<T::Cell, T::Proof>>),
    /// Make columns of cells with [`compute_custody_columns_from_cells`].
    ComputeColumnsFromCells(FetchContext, Vec<BlobCellsAndProofs<T::Cell, T::Proof>>),
    /// Merge the columns to import with what is held of them.
    MergeColumns(FetchContext, Vec<Indexed<T::PartialColumn>>),
    /// Publish, then import.
    PublishAndImport(FetchContext, EngineGetBlobsOutput<T>),
    /// Nothing more to do.
    Done(Result<Option<AvailabilityProcessingStatus>, FetchEngineBlobError<T::Error>>),
}

impl<T: EngineTypes> FetchState<T> {
    /// How many more answers a fetch takes at most.
    pub open spec fn answers_left(self) -> nat {
        match self {
            FetchState::AskV4Support(_) => 8,
            FetchState::AskExecutionBlockHash(_) => 7,
            FetchState::AskV3Support(_) => 6,
            FetchState::RequestBlobsV1(_) => 6,
            FetchState::RequestBlobsV2(_) => 5,
            FetchState::RequestBlobsV3(_) => 5,
            FetchState::RequestCellsV4(_, _, _) => 5,
            FetchState::CheckImportedV1(_, _) => 5,
            FetchState::BuildSidecars(_, _) => 4,
            FetchState::AskObservedBlobs(_, _) => 3,
            FetchState::AskKnownBlobs(_, _) => 2,
            FetchState::CheckImportedV2OrV3(_, _) => 4,
            FetchState::ComputeColumns(_, _) => 3,
            FetchState::CheckImportedV4(_, _) => 4,
            FetchState::ComputeColumnsFromCells(_, _) => 3,
            FetchState::MergeColumns(_, _) => 2,
            FetchState::PublishAndImport(_, _) => 1,
            FetchState::Done(_) => 0,
        }
    }

    /// The fetch has ended with nothing fetched and no error.
    pub open spec fn nothing_fetched() -> FetchState<T> {
        FetchState::Done(Ok(None))
    }

    /// The fetch has ended with an error.
    pub open spec fn failed_with(e: FetchEngineBlobError<T::Error>) -> FetchState<T> {
        FetchState::Done(Err(e))
    }

    /// Begins the fetch of the blobs of a block with the given KZG commitments. From PeerDAS on the
    /// blobs are imported as columns.
    pub fn begin(
        block_root: Hash256,
        slot: Slot,
        kzg_commitments: &Vec<[u8; 48]>,
        custody_columns: Vec<ColumnIndex>,
        peer_das_enabled: bool,
    ) -> (result: FetchState<T>)
        ensures
            kzg_commitments@.len() == 0 ==> result == Self::nothing_fetched(),
            kzg_commitments@.len() > 0 ==> {
                &&& peer_das_enabled ==> result is AskV4Support && is_context(
                    result->AskV4Support_0,
                    block_root,
                    slot,
                    kzg_commitments@,
                    custody_columns,
                )
                &&& !peer_das_enabled ==> result is RequestBlobsV1 && is_context(
                    result->RequestBlobsV1_0,
                    block_root,
                    slot,
                    kzg_commitments@,
                    custody_columns,
                )
            },
            result.answers_left() <= 8,
            // The hashes that are asked for are those of the commitments, in their order.
            kzg_commitments@.len() > 0 && peer_das_enabled ==> {
                &&& result->AskV4Support_0.block_root == block_root
                &&& result->AskV4Support_0.slot == slot
                &&& result->AskV4Support_0.custody_columns == custody_columns
                &&& result->AskV4Support_0.versioned_hashes@.len() == kzg_commitments@.len()
                &&& forall|i: int, j: int|
                    0 <= i < kzg_commitments@.len() && 0 <= j < 32
                        ==> #[trigger] result->AskV4Support_0.versioned_hashes@[i]@[j] == (if j == 0 {
                        1
                    } else {
                        sha256(kzg_commitments@[i]@)@[j]
                    })
            },
            kzg_commitments@.len() > 0 && !peer_das_enabled ==> {
                &&& result->RequestBlobsV1_0.block_root == block_root
                &&& result->RequestBlobsV1_0.slot == slot
                &&& result->RequestBlobsV1_0.custody_columns == custody_columns
                &&& result->RequestBlobsV1_0.versioned_hashes@.len() == kzg_commitments@.len()
                &&& forall|i: int, j: int|
                    0 <= i < kzg_commitments@.len() && 0 <= j < 32
                        ==> #[trigger] result->RequestBlobsV1_0.versioned_hashes@[i]@[j] == (if j == 0 {
                        1
                    } else {
                        sha256(kzg_commitments@[i]@)@[j]
                    })
            },
    {
        let versioned_hashes = versioned_hashes(kzg_commitments);
        if versioned_hashes.len() == 0 {
            return FetchState::Done(Ok(None));
        }
        let context = FetchContext { block_root, slot, versioned_hashes, custody_columns };
        if peer_das_enabled {
            // Single cells come first: they save fetching full blobs.
            FetchState::AskV4Support(context)
        } else {
            FetchState::RequestBlobsV1(context)
        }
    }

    /// Goes on once it is known whether the execution layer supplies single cells.
    pub fn v4_support_answered(
        context: FetchContext,
        answer: Result<bool, FetchEngineBlobError<T::Error>>,
    ) -> (result: FetchState<T>)
        ensures
            result == match answer {
                Ok(true) => FetchState::AskExecutionBlockHash(context),
                Ok(false) => FetchState::AskV3Support(context),
                Err(e) => Self::failed_with(e),
            },
            result.answers_left() < FetchState::<T>::AskV4Support(context).answers_left(),
    {
        match answer {
            Ok(true) => FetchState::AskExecutionBlockHash(context),
            Ok(false) => FetchState::AskV3Support(context),
            Err(e) => FetchState::Done(Err(e)),
        }
    }

    /// Goes on once the hash of the execution block has been looked up: with the request for the
    /// cells of the columns in custody, or without it where there is no hash.
    pub fn execution_block_hash_answered(
        context: FetchContext,
        answer: Result<Option<Hash256>, FetchEngineBlobError<T::Error>>,
    ) -> (result: FetchState<T>)
        ensures
            match answer {
                Ok(Some(hash)) => {
                    &&& result matches FetchState::RequestCellsV4(same, execution_hash, bitarray)
                    &&& same == context
                    &&& execution_hash == hash
                    &&& holds_columns(bitarray@, context.custody_columns@)
                },
                Ok(None) => result == FetchState::<T>::AskV3Support(context),
                Err(e) => result == Self::failed_with(e),
            },
            result.answers_left() < FetchState::<T>::AskExecutionBlockHash(context).answers_left(),
            // Exactly the columns in custody are requested, each by its bit.
            answer is Ok && answer->Ok_0 is Some ==> forall|i: int|
                0 <= i < 128 ==> ((#[trigger] result->RequestCellsV4_2@[i / 8] >> ((i % 8) as u8))
                    & 1 == 1) == context.custody_columns@.contains(i as u64),
    {
        match answer {
            Ok(Some(hash)) => {
                let bitarray = custody_columns_to_bitarray(&context.custody_columns);
                FetchState::RequestCellsV4(context, hash, bitarray)
            },
            Ok(None) => FetchState::AskV3Support(context),
            Err(e) => FetchState::Done(Err(e)),
        }
    }

    /// Goes on once it is known whether the execution layer supplies some of the blobs where it
    /// does not have all.
    pub fn v3_support_answered(
        context: FetchContext,
        answer: Result<bool, FetchEngineBlobError<T::Error>>,
    ) -> (result: FetchState<T>)
        ensures
            result == match answer {
                Ok(true) => FetchState::RequestBlobsV3(context),
                Ok(false) => FetchState::RequestBlobsV2(context),
                Err(e) => Self::failed_with(e),
            },
            result.answers_left() < FetchState::<T>::AskV3Support(context).answers_left(),
    {
        match answer {
            Ok(true) => FetchState::RequestBlobsV3(context),
            Ok(false) => FetchState::RequestBlobsV2(context),
            Err(e) => FetchState::Done(Err(e)),
        }
    }

    /// Goes on with the blobs that were requested, each with one proof, unless there are none.
    pub fn blobs_v1_received(
        context: FetchContext,
        answer: Result<Vec<Option<T::BlobAndProofV1>>, FetchEngineBlobError<T::Error>>,
    ) -> (result: FetchState<T>)
        ensures
            result == match answer {
                Ok(response) => if places(response@).len() == 0 {
                    Self::nothing_fetched()
                } else {
                    FetchState::CheckImportedV1(context, response)
                },
                Err(e) => Self::failed_with(e),
            },
            result.answers_left() < FetchState::<T>::RequestBlobsV1(context).answers_left(),
            // One blob that is there is enough to go on with.
            answer is Ok && (exists|i: int|
                0 <= i < answer->Ok_0@.len() && (#[trigger] answer->Ok_0@[i]) is Some) ==> result
                == FetchState::<T>::CheckImportedV1(context, answer->Ok_0),
            answer is Ok && (forall|i: int|
                0 <= i < answer->Ok_0@.len() ==> (#[trigger] answer->Ok_0@[i]) is None) ==> result
                == FetchState::<T>::Done(Ok(None)),
            answer is Err ==> result == FetchState::<T>::Done(Err(answer->Err_0)),
    {
        proof {
            if answer is Ok {
                lemma_places(answer->Ok_0@);
                if exists|i: int|
                    0 <= i < answer->Ok_0@.len() && (#[trigger] answer->Ok_0@[i]) is Some {
                    let i = choose|i: int|
                        0 <= i < answer->Ok_0@.len() && (#[trigger] answer->Ok_0@[i]) is Some;
                    lemma_some_place(answer->Ok_0@, i);
                } else if places(answer->Ok_0@).len() > 0 {
                    let first = places(answer->Ok_0@)[0];
                    assert(answer->Ok_0@[first] is Some);
                }
            }
        }
        match answer {
            Ok(response) => if count_present(&response) == 0 {
                FetchState::Done(Ok(None))
            } else {
                FetchState::CheckImportedV1(context, response)
            },
            Err(e) => FetchState::Done(Err(e)),
        }
    }

    /// Goes on to build sidecars, unless the block has been imported.
    pub fn imported_v1_answered(
        context: FetchContext,
        response: Vec<Option<T::BlobAndProofV1>>,
        imported: bool,
    ) -> (result: FetchState<T>)
        ensures
            result == (if imported {
                Self::nothing_fetched()
            } else {
                FetchState::BuildSidecars(context, response)
            }),
            result.answers_left() < FetchState::<T>::CheckImportedV1(
                context,
                response,
            ).answers_left(),
    {
        if imported {
            FetchState::Done(Ok(None))
        } else {
            FetchState::BuildSidecars(context, response)
        }
    }

    /// Goes on with the sidecars that were built.
    pub fn sidecars_built(
        context: FetchContext,
        built: Result<Vec<Indexed<T::Blob>>, FetchEngineBlobError<T::Error>>,
    ) -> (result: FetchState<T>)
        ensures
            result == match built {
                Ok(sidecars) => FetchState::AskObservedBlobs(context, sidecars),
                Err(e) => Self::failed_with(e),
            },
            result.answers_left() <= 3,
    {
        match built {
            Ok(sidecars) => FetchState::AskObservedBlobs(context, sidecars),
            Err(e) => FetchState::Done(Err(e)),
        }
    }

    /// Drops the blobs that were observed on gossip, and ends where that leaves none.
    pub fn observed_blobs_answered(
        context: FetchContext,
        blobs: Vec<Indexed<T::Blob>>,
        observed: &Option<HashSet<u64>>,
    ) -> (result: FetchState<T>)
        ensures
            ({
                let left = selected(blobs@, not_seen(observed_set(*observed)));
                if *observed is Some && left.len() == 0 {
                    result == Self::nothing_fetched()
                } else {
                    &&& result matches FetchState::AskKnownBlobs(same, kept)
                    &&& same == context
                    &&& kept@ == left
                }
            }),
            result.answers_left() < FetchState::<T>::AskObservedBlobs(
                context,
                blobs,
            ).answers_left(),
            // All blobs but the observed ones stay, in their order.
            match *observed {
                Some(seen) => {
                    let left = blobs@.filter(|b: Indexed<T::Blob>| !seen@.contains(b.index));
                    &&& left.len() == 0 ==> result == FetchState::<T>::Done(Ok(None))
                    &&& left.len() > 0 ==> result is AskKnownBlobs && result->AskKnownBlobs_0
                        == context && result->AskKnownBlobs_1@ == left
                },
                None => result is AskKnownBlobs && result->AskKnownBlobs_0 == context
                    && result->AskKnownBlobs_1@ == blobs@,
            },
    {
        let kept = drop_observed(blobs, observed);
        if observed.is_some() && kept.len() == 0 {
            return FetchState::Done(Ok(None));
        }
        FetchState::AskKnownBlobs(context, kept)
    }

    /// Drops the blobs that are known already, and ends where that leaves none.
    pub fn known_blobs_answered(
        context: FetchContext,
        blobs: Vec<Indexed<T::Blob>>,
        known: &Option<Vec<u64>>,
    ) -> (result: FetchState<T>)
        ensures
            ({
                let left = selected(blobs@, not_seen(set_of(*known)));
                if *known is Some && left.len() == 0 {
                    result == Self::nothing_fetched()
                } else {
                    &&& result matches FetchState::PublishAndImport(same, output)
                    &&& same == context
                    &&& output matches EngineGetBlobsOutput::Blobs(kept)
                    &&& kept@ == left
                }
            }),
            result.answers_left() < FetchState::<T>::AskKnownBlobs(context, blobs).answers_left(),
            // All blobs but the known ones are published and imported, in their order.
            ({
                let left = if *known is Some {
                    blobs@.filter(|b: Indexed<T::Blob>| !(*known)->0@.contains(b.index))
                } else {
                    blobs@
                };
                if *known is Some && left.len() == 0 {
                    result == FetchState::<T>::Done(Ok(None))
                } else {
                    &&& result is PublishAndImport
                    &&& result->PublishAndImport_0 == context
                    &&& result->PublishAndImport_1 is Blobs
                    &&& result->PublishAndImport_1->Blobs_0@ == left
                }
            }),
    {
        let kept = drop_known(blobs, known);
        if known.is_some() && kept.len() == 0 {
            return FetchState::Done(Ok(None));
        }
        FetchState::PublishAndImport(context, EngineGetBlobsOutput::Blobs(kept))
    }

    /// Goes on with all of the blobs that were requested; ends where there are none, or another
    /// number of them than was requested.
    pub fn blobs_v2_received(
        context: FetchContext,
        answer: Result<Option<Vec<T::BlobAndProofV2>>, FetchEngineBlobError<T::Error>>,
    ) -> (result: FetchState<T>)
        ensures
            match answer {
                Ok(Some(blobs)) => if blobs@.len() != context.versioned_hashes@.len() {
                    result == Self::nothing_fetched()
                } else {
                    &&& result matches FetchState::CheckImportedV2OrV3(same, response)
                    &&& same == context
                    &&& response@ == all_there(blobs@)
                },
                Ok(None) => result == Self::nothing_fetched(),
                Err(e) => result == Self::failed_with(e),
            },
            result.answers_left() < FetchState::<T>::RequestBlobsV2(context).answers_left(),
            // As many blobs as were asked for all go on, each at its place.
            answer is Ok && answer->Ok_0 is Some && answer->Ok_0->0@.len()
                == context.versioned_hashes@.len() ==> {
                &&& result is CheckImportedV2OrV3
                &&& result->CheckImportedV2OrV3_0 == context
                &&& result->CheckImportedV2OrV3_1@.len() == answer->Ok_0->0@.len()
                &&& forall|i: int|
                    0 <= i < answer->Ok_0->0@.len()
                        ==> #[trigger] result->CheckImportedV2OrV3_1@[i] == Some(
                        answer->Ok_0->0@[i],
                    )
            },
    {
        match answer {
            Ok(Some(blobs)) => {
                // Columns computed from some of the blobs would be invalid.
                if blobs.len() != context.versioned_hashes.len() {
                    return FetchState::Done(Ok(None));
                }
                FetchState::CheckImportedV2OrV3(context, wrap_all(blobs))
            },
            Ok(None) => FetchState::Done(Ok(None)),
            Err(e) => FetchState::Done(Err(e)),
        }
    }

    /// Goes on with the blobs that are there of those that were requested.
    pub fn blobs_v3_received(
        context: FetchContext,
        answer: Result<Option<Vec<Option<T::BlobAndProofV2>>>, FetchEngineBlobError<T::Error>>,
    ) -> (result: FetchState<T>)
        ensures
            result == match answer {
                Ok(Some(response)) => FetchState::CheckImportedV2OrV3(context, response),
                Ok(None) => Self::nothing_fetched(),
                Err(e) => Self::failed_with(e),
            },
            result.answers_left() < FetchState::<T>::RequestBlobsV3(context).answers_left(),
    {
        match answer {
            Ok(Some(response)) => FetchState::CheckImportedV2OrV3(context, response),
            Ok(None) => FetchState::Done(Ok(None)),
            Err(e) => FetchState::Done(Err(e)),
        }
    }

    /// Goes on to compute columns, unless the block has been imported.
    pub fn imported_v2_or_v3_answered(
        context: FetchContext,
        response: Vec<Option<T::BlobAndProofV2>>,
        imported: bool,
    ) -> (result: FetchState<T>)
        ensures
            result == (if imported {
                Self::nothing_fetched()
            } else {
                FetchState::ComputeColumns(context, response)
            }),
            result.answers_left() < FetchState::<T>::CheckImportedV2OrV3(
                context,
                response,
            ).answers_left(),
    {
        if imported {
            FetchState::Done(Ok(None))
        } else {
            FetchState::ComputeColumns(context, response)
        }
    }

    /// Goes on with the cells that were requested, unless there are none.
    pub fn cells_received(
        context: FetchContext,
        answer: Result<
            Option<Vec<BlobCellsAndProofs<T::Cell, T::Proof>>>,
            FetchEngineBlobError<T::Error>,
        >,
    ) -> (result: FetchState<T>)
        ensures
            result == match answer {
                Ok(Some(cells)) => if cells@.len() == 0 {
                    Self::nothing_fetched()
                } else {
                    FetchState::CheckImportedV4(context, cells)
                },
                Ok(None) => Self::nothing_fetched(),
                Err(e) => Self::failed_with(e),
            },
            result.answers_left() <= 4,
    {
        match answer {
            Ok(Some(cells)) => if cells.len() == 0 {
                FetchState::Done(Ok(None))
            } else {
                FetchState::CheckImportedV4(context, cells)
            },
            Ok(None) => FetchState::Done(Ok(None)),
            Err(e) => FetchState::Done(Err(e)),
        }
    }

    /// Goes on to make columns of cells, unless the block has been imported.
    pub fn imported_v4_answered(
        context: FetchContext,
        cells: Vec<BlobCellsAndProofs<T::Cell, T::Proof>>,
        imported: bool,
    ) -> (result: FetchState<T>)
        ensures
            result == (if imported {
                Self::nothing_fetched()
            } else {
                FetchState::ComputeColumnsFromCells(context, cells)
            }),
            result.answers_left() < FetchState::<T>::CheckImportedV4(context, cells).answers_left(),
    {
        if imported {
            FetchState::Done(Ok(None))
        } else {
            FetchState::ComputeColumnsFromCells(context, cells)
        }
    }

    /// Goes on with the columns to import, unless there are none. They were computed apart:
    /// `computed` is nothing where the computation could not be started, and an error where it was
    /// cut off.
    pub fn columns_computed(
        context: FetchContext,
        computed: Option<
            Result<
                Result<Vec<Indexed<T::PartialColumn>>, FetchEngineBlobError<T::Error>>,
                T::Error,
            >,
        >,
    ) -> (result: FetchState<T>)
        ensures
            result == match computed {
                None => Self::failed_with(FetchEngineBlobError::RuntimeShutdown),
                Some(Err(x)) => Self::failed_with(FetchEngineBlobError::TokioJoin(x)),
                Some(Ok(Err(e))) => Self::failed_with(e),
                Some(Ok(Ok(columns))) => if columns@.len() == 0 {
                    Self::nothing_fetched()
                } else {
                    FetchState::MergeColumns(context, columns)
                },
            },
            result.answers_left() <= 2,
    {
        match computed {
            None => FetchState::Done(Err(FetchEngineBlobError::RuntimeShutdown)),
            Some(Err(x)) => FetchState::Done(Err(FetchEngineBlobError::TokioJoin(x))),
            Some(Ok(Err(e))) => FetchState::Done(Err(e)),
            Some(Ok(Ok(columns))) => if columns.len() == 0 {
                FetchState::Done(Ok(None))
            } else {
                FetchState::MergeColumns(context, columns)
            },
        }
    }

    /// Goes on to publish and import the columns that are full; where none is, components of the
    /// block are still missing.
    pub fn columns_merged(context: FetchContext, outcome: MergeOutcome<T>) -> (result: FetchState<
        T,
    >)
        ensures
            match full_columns(outcome) {
                None => {
                    &&& result matches FetchState::Done(
                        Err(FetchEngineBlobError::InternalError(message)),
                    )
                    &&& message@ == MERGE_MESSAGE@
                },
                Some(columns) => if columns.len() == 0 {
                    result == FetchState::<T>::Done(
                        Ok(
                            Some(
                                AvailabilityProcessingStatus::MissingComponents(
                                    context.slot,
                                    context.block_root,
                                ),
                            ),
                        ),
                    )
                } else {
                    &&& result matches FetchState::PublishAndImport(same, output)
                    &&& same == context
                    &&& output matches EngineGetBlobsOutput::CustodyColumns(full)
                    &&& full@ == columns
                },
            },
            result.answers_left() <= 1,
            // All full columns that merging came to are published and imported, in their order.
            outcome is Assembled && outcome->Assembled_0 is Some ==> {
                let merged = outcome->Assembled_0->0@;
                &&& merged.len() > 0 ==> {
                    &&& result is PublishAndImport
                    &&& result->PublishAndImport_0 == context
                    &&& result->PublishAndImport_1 is CustodyColumns
                    &&& result->PublishAndImport_1->CustodyColumns_0@ == merged
                }
                &&& merged.len() == 0 ==> result == FetchState::<T>::Done(
                    Ok(
                        Some(
                            AvailabilityProcessingStatus::MissingComponents(
                                context.slot,
                                context.block_root,
                            ),
                        ),
                    ),
                )
            },
            outcome is Converted ==> {
                let merged = outcome->Converted_0@.filter(
                    |item: Option<T::Column>| item is Some,
                ).map_values(|item: Option<T::Column>| item->0);
                &&& merged.len() > 0 ==> {
                    &&& result is PublishAndImport
                    &&& result->PublishAndImport_0 == context
                    &&& result->PublishAndImport_1 is CustodyColumns
                    &&& result->PublishAndImport_1->CustodyColumns_0@ == merged
                }
                &&& merged.len() == 0 ==> result == FetchState::<T>::Done(
                    Ok(
                        Some(
                            AvailabilityProcessingStatus::MissingComponents(
                                context.slot,
                                context.block_root,
                            ),
                        ),
                    ),
                )
            },
            outcome is Assembled && outcome->Assembled_0 is None ==> {
                &&& result matches FetchState::Done(Err(FetchEngineBlobError::InternalError(text)))
                &&& text@ == "Failed to merge partials into assembler"@
            },
    {
        proof {
            law_all_full_columns_are_kept(outcome);
        }
        let full = match outcome {
            MergeOutcome::Assembled(Some(full)) => full,
            MergeOutcome::Assembled(None) => {
                return FetchState::Done(
                    Err(FetchEngineBlobError::InternalError(MERGE_MESSAGE.to_string())),
                );
            },
            MergeOutcome::Converted(converted) => keep_present(converted),
        };
        if full.len() == 0 {
            return FetchState::Done(
                Ok(
                    Some(
                        AvailabilityProcessingStatus::MissingComponents(
                            context.slot,
                            context.block_root,
                        ),
                    ),
                ),
            );
        }
        FetchState::PublishAndImport(context, EngineGetBlobsOutput::CustodyColumns(full))
    }

    /// Ends the fetch with what the import came to.
    pub fn imported(
        outcome: Result<AvailabilityProcessingStatus, FetchEngineBlobError<T::Error>>,
    ) -> (result: FetchState<T>)
        ensures
            result == FetchState::<T>::Done(
                match outcome {
                    Ok(status) => Ok(Some(status)),
                    Err(e) => Err(e),
                },
            ),
            result.answers_left() == 0,
    {
        match outcome {
            Ok(status) => FetchState::Done(Ok(Some(status))),
            Err(e) => FetchState::Done(Err(e)),
        }
    }
}

/// The message for columns that the assembler of partial columns refused.
pub const MERGE_MESSAGE: &'static str = "Failed to merge partials into assembler";

/// Whether a context is for the given block, commitments and custody.
pub open spec fn is_context(
    context: FetchContext,
    block_root: Hash256,
    slot: Slot,
    kzg_commitments: Seq<[u8; 48]>,
    custody_columns: Vec<ColumnIndex>,
) -> bool {
    &&& context.block_root == block_root
    &&& context.slot == slot
    &&& context.custody_columns == custody_columns
    &&& context.versioned_hashes@.len() == kzg_commitments.len()
    &&& forall|i: int|
        0 <= i < kzg_commitments.len() ==> (#[trigger] context.versioned_hashes@[i])@
            == versioned_hash(kzg_commitments[i]@)
}

/// The full columns that merging came to, unless it was refused.
pub open spec fn full_columns<T: EngineTypes>(outcome: MergeOutcome<T>) -> Option<Seq<T::Column>> {
    match outcome {
        MergeOutcome::Assembled(Some(full)) => Some(full@),
        MergeOutcome::Assembled(None) => None,
        MergeOutcome::Converted(converted) => Some(present(converted@)),
    }
}

/// Items that are all there.
pub open spec fn all_there<P>(items: Seq<P>) -> Seq<Option<P>> {
    Seq::new(items.len(), |i: int| Some(items[i]))
}

/// Marks every item as there.
fn wrap_all<P>(items: Vec<P>) -> (result: Vec<Option<P>>)
    ensures
        result@ == all_there(items@),
{
    let ghost all = items@;
    let mut wrapped: Vec<Option<P>> = Vec::new();
    for item in it: items
        invariant
            it.seq() == all,
            wrapped@ == all_there(all).take(it.index() as int),
            all_there(all).take(all.len() as int) == all_there(all),
    {
        wrapped.push(Some(item));
        assert(wrapped@ =~= all_there(all).take(it.index() + 1));
    }
    wrapped
}

/// Blobs that are left once observed and known ones were dropped are neither, and are blobs that
/// were there before.
pub proof fn law_published_blobs_are_new<I>(
    blobs: Seq<Indexed<I>>,
    observed: Option<Set<u64>>,
    known: Option<Set<u64>>,
    k: int,
)
    requires
        0 <= k < selected(selected(blobs, not_seen(observed)), not_seen(known)).len(),
    ensures
        ({
            let blob = selected(selected(blobs, not_seen(observed)), not_seen(known))[k];
            &&& blobs.contains(blob)
            &&& observed is Some ==> !observed->0.contains(blob.index)
            &&& known is Some ==> !known->0.contains(blob.index)
        }),
{
    let new = not_seen(observed).intersect(not_seen(known));
    law_selections_combine(blobs, not_seen(observed), not_seen(known));
    law_selected_are_wanted(blobs, new);
    assert(new.contains(selected(blobs, new)[k].index));
}

/// A column is imported exactly where it is in custody, was not observed and is not known.
pub proof fn law_imported_columns_are_new_and_in_custody<I>(
    columns: Seq<Indexed<I>>,
    custody_columns: Seq<ColumnIndex>,
    observed: Option<Set<u64>>,
    known: Option<Set<u64>>,
    column: Indexed<I>,
)
    ensures
        selected(columns, wanted_columns(custody_columns, observed, known)).contains(column) <==> {
            &&& columns.contains(column)
            &&& custody_columns.contains(column.index)
            &&& observed is Some ==> !observed->0.contains(column.index)
            &&& known is Some ==> !known->0.contains(column.index)
        },
{
    let wanted = wanted_columns(custody_columns, observed, known);
    law_selected_are_wanted(columns, wanted);
    if selected(columns, wanted).contains(column) {
        let k = selected(columns, wanted).index_of(column);
        assert(wanted.contains(selected(columns, wanted)[k].index));
    }
    if columns.contains(column) && wanted.contains(column.index) {
        law_wanted_are_selected(columns, wanted, columns.index_of(column));
    }
    assert(custody_columns.to_set().contains(column.index) <==> custody_columns.contains(
        column.index,
    ));
}

/// A versioned hash is the digest of the commitment but for its first byte, the version.
pub proof fn law_versioned_hash_keeps_the_digest(commitment: Seq<u8>, i: int)
    requires
        1 <= i < 32,
    ensures
        versioned_hash(commitment).len() == 32,
        versioned_hash(commitment)[0] == 1,
        versioned_hash(commitment)[i] == sha256(commitment)@[i],
{
}

/// What is there are all items that are something, in their order.
pub proof fn law_present_is_a_filter<P>(items: Seq<Option<P>>)
    ensures
        places(items).len() == items.filter(|item: Option<P>| item is Some).len(),
        present(items) == items.filter(|item: Option<P>| item is Some).map_values(
            |item: Option<P>| item->0,
        ),
    decreases items.len(),
{
    reveal(Seq::filter);
    let is_there = |item: Option<P>| item is Some;
    let content = |item: Option<P>| item->0;
    if items.len() > 0 {
        let init = items.drop_last();
        law_present_is_a_filter(init);
        assert(items.take(items.len() - 1) =~= init);
        assert(items.take(items.len() as int) =~= items);
        lemma_present_grows(items, items.len() - 1);
        if items.last() is Some {
            assert(items.filter(is_there).map_values(content) =~= init.filter(is_there).map_values(
                content,
            ).push(items.last()->0));
        }
    } else {
        assert(present(items) =~= items.filter(is_there).map_values(content));
    }
}

/// The places that hold something are exactly those of the items that are something, in ascending
/// order.
pub proof fn law_places_hold_what_is_there<P>(items: Seq<Option<P>>, i: int)
    ensures
        places(items).contains(i) <==> 0 <= i < items.len() && items[i] is Some,
        forall|k: int, l: int|
            0 <= k < l < places(items).len() ==> places(items)[k] < places(items)[l],
    decreases items.len(),
{
    if items.len() > 0 {
        let init = items.drop_last();
        let earlier = places(init);
        lemma_places(init);
        law_places_hold_what_is_there(init, i);
        lemma_seq_contains_after_push(earlier, items.len() - 1, i);
    }
}

/// Each blob that is there gets its sidecar, under the blob's place, in the order of the blobs.
pub proof fn law_every_blob_gets_its_sidecar<
    T: EngineTypes,
    F: Fn(usize, T::BlobAndProofV1) -> Result<T::Blob, T::Error>,
>(make: F, response: Seq<Option<T::BlobAndProofV1>>, sidecars: Seq<Indexed<T::Blob>>)
    requires
        response.len() <= usize::MAX,
        sidecars_made::<T, F>(make, response, sidecars, places(response).len()),
    ensures
        sidecars.len() == response.filter(|item: Option<T::BlobAndProofV1>| item is Some).len(),
        forall|k: int|
            0 <= k < sidecars.len() ==> {
                let i = (#[trigger] sidecars[k]).index;
                &&& i < response.len()
                &&& response[i as int] is Some
                &&& call_ensures(
                    make,
                    (i as usize, response[i as int]->0),
                    Ok::<T::Blob, T::Error>(sidecars[k].item),
                )
            },
        forall|k: int, l: int|
            0 <= k < l < sidecars.len() ==> (#[trigger] sidecars[k]).index < (
            #[trigger] sidecars[l]).index,
{
    law_present_is_a_filter(response);
    lemma_places(response);
    law_places_hold_what_is_there(response, 0);
}

/// A blob has its cell at a place exactly where both the cell and its proof are there.
pub proof fn law_a_cell_needs_its_proof<C, P>(
    blobs: Seq<BlobCellsAndProofs<C, P>>,
    place: int,
    b: int,
)
    requires
        0 <= b < blobs.len(),
        0 <= place,
    ensures
        ({
            let cells = blobs[b].blob_cells@;
            let proofs = blobs[b].proofs@;
            let there = place < cells.len() && place < proofs.len() && cells[place] is Some
                && proofs[place] is Some;
            &&& presence(blobs, place).len() == blobs.len()
            &&& presence(blobs, place)[b] == there
            &&& cells_at(blobs, place).len() == blobs.len()
            &&& cells_at(blobs, place)[b] == if there {
                Some((cells[place]->0, proofs[place]->0))
            } else {
                None
            }
        }),
{
}

/// As many cells are at a place as blobs have their cell and its proof there.
pub proof fn law_cells_are_counted<C, P>(blobs: Seq<BlobCellsAndProofs<C, P>>, place: int)
    requires
        0 <= place,
    ensures
        cells_present(blobs, place) == blobs.filter(
            |blob: BlobCellsAndProofs<C, P>|
                {
                    &&& place < blob.blob_cells@.len()
                    &&& place < blob.proofs@.len()
                    &&& blob.blob_cells@[place] is Some
                    &&& blob.proofs@[place] is Some
                },
        ).len(),
    decreases blobs.len(),
{
    reveal(Seq::filter);
    if blobs.len() > 0 {
        let init = blobs.drop_last();
        law_cells_are_counted(init, place);
        assert(cells_at(blobs, place).drop_last() =~= cells_at(init, place));
    }
}

/// What is handed over to make a column: of each blob whether it has its cell and the proof, and
/// these cells and proofs, each pair of the same blob, in the order of the blobs `of`.
pub proof fn law_make_is_handed_the_cells<
    T: EngineTypes,
    F: Fn(ColumnIndex, Vec<bool>, Vec<T::Cell>, Vec<T::Proof>) -> Result<
        T::PartialColumn,
        T::Error,
    >,
>(
    make: F,
    column: ColumnIndex,
    blobs: Seq<BlobCellsAndProofs<T::Cell, T::Proof>>,
    place: int,
    made: Result<T::PartialColumn, T::Error>,
) -> (handed: (Vec<bool>, Vec<T::Cell>, Vec<T::Proof>, Seq<int>))
    requires
        0 <= place,
        column_made::<T, F>(make, column, blobs, place, made),
    ensures
        call_ensures(make, (column, handed.0, handed.1, handed.2), made),
        handed.0@.len() == blobs.len(),
        forall|b: int|
            0 <= b < blobs.len() ==> (#[trigger] handed.0@[b]) == {
                &&& place < blobs[b].blob_cells@.len()
                &&& place < blobs[b].proofs@.len()
                &&& blobs[b].blob_cells@[place] is Some
                &&& blobs[b].proofs@[place] is Some
            },
        handed.1@.len() == handed.3.len(),
        handed.2@.len() == handed.3.len(),
        handed.3.len() == handed.0@.filter(|there: bool| there).len(),
        forall|k: int|
            0 <= k < handed.3.len() ==> {
                let b = #[trigger] handed.3[k];
                &&& 0 <= b < blobs.len()
                &&& handed.0@[b]
                &&& handed.1@[k] == blobs[b].blob_cells@[place]->0
                &&& handed.2@[k] == blobs[b].proofs@[place]->0
            },
        forall|k: int, l: int| 0 <= k < l < handed.3.len() ==> handed.3[k] < handed.3[l],
{
    let (flags, cells, proofs) = choose|
        flags: Vec<bool>,
        cells: Vec<T::Cell>,
        proofs: Vec<T::Proof>,
    |
        {
            &&& flags@ == presence(blobs, place)
            &&& cells@ == firsts(present(cells_at(blobs, place)))
            &&& proofs@ == seconds(present(cells_at(blobs, place)))
            &&& #[trigger] call_ensures(make, (column, flags, cells, proofs), made)
        };
    let there = cells_at(blobs, place);
    let of = places(there);
    lemma_places(there);
    law_places_hold_what_is_there(there, 0);
    lemma_flags_count(blobs, place);
    assert forall|k: int| 0 <= k < of.len() implies {
        let b = #[trigger] of[k];
        &&& 0 <= b < blobs.len()
        &&& flags@[b]
        &&& cells@[k] == blobs[b].blob_cells@[place]->0
        &&& proofs@[k] == blobs[b].proofs@[place]->0
    } by {
        assert(there[of[k]] is Some);
        assert(present(there)[k] == there[of[k]]->0);
    }
    (flags, cells, proofs, of)
}

/// As many flags are set as cells are there.
proof fn lemma_flags_count<C, P>(blobs: Seq<BlobCellsAndProofs<C, P>>, place: int)
    ensures
        places(cells_at(blobs, place)).len() == presence(blobs, place).filter(
            |there: bool| there,
        ).len(),
    decreases blobs.len(),
{
    reveal(Seq::filter);
    if blobs.len() > 0 {
        let init = blobs.drop_last();
        lemma_flags_count(init, place);
        assert(cells_at(blobs, place).drop_last() =~= cells_at(init, place));
        assert(presence(blobs, place).drop_last() =~= presence(init, place));
    }
}

/// The columns that are made come in the order in which custody names them first.
pub proof fn law_columns_are_made_in_custody_order<C, P>(
    blobs: Seq<BlobCellsAndProofs<C, P>>,
    custody_columns: Seq<ColumnIndex>,
    new: Set<u64>,
    n: nat,
    i: int,
    j: int,
)
    requires
        n <= custody_columns.len(),
        0 <= i < j < columns_with_cells(blobs, custody_columns, new, n).len(),
    ensures
        exists|at: int|
            {
                let columns = columns_with_cells(blobs, custody_columns, new, n);
                &&& 0 <= at < n
                &&& custody_columns[at] == columns[j]
                &&& custody_columns.take(at).contains(columns[i])
                &&& !(#[trigger] custody_columns.take(at)).contains(columns[j])
            },
    decreases n,
{
    let columns = columns_with_cells(blobs, custody_columns, new, n);
    let earlier = columns_with_cells(blobs, custody_columns, new, (n - 1) as nat);
    if j < earlier.len() {
        law_columns_are_made_in_custody_order(
            blobs,
            custody_columns,
            new,
            (n - 1) as nat,
            i,
            j,
        );
    } else {
        lemma_columns_with_cells(blobs, custody_columns, new, (n - 1) as nat, columns[i]);
        assert(earlier.contains(earlier[i]));
        assert(custody_columns.take(n - 1).contains(columns[i]));
    }
}

/// A column is refused for its cells exactly where more than 4096 blobs have their cell of it, and
/// it is the first such column.
pub proof fn law_the_first_oversized_column_is_refused<C, P>(
    blobs: Seq<BlobCellsAndProofs<C, P>>,
    custody_columns: Seq<ColumnIndex>,
    columns: Seq<ColumnIndex>,
    k: nat,
)
    ensures
        match first_oversized(blobs, custody_columns, columns, k) {
            Some(column) => exists|i: int|
                {
                    &&& k <= i < columns.len()
                    &&& #[trigger] columns[i] == column
                    &&& cells_present(blobs, place_of(custody_columns, column) as int) > 4096
                    &&& forall|j: int|
                        k <= j < i ==> cells_present(
                            blobs,
                            place_of(custody_columns, #[trigger] columns[j]) as int,
                        ) <= 4096
                },
            None => forall|j: int|
                k <= j < columns.len() ==> cells_present(
                    blobs,
                    place_of(custody_columns, #[trigger] columns[j]) as int,
                ) <= 4096,
        },
    decreases columns.len() - k,
{
    if k < columns.len() {
        law_the_first_oversized_column_is_refused(blobs, custody_columns, columns, k + 1);
        let count = cells_present(blobs, place_of(custody_columns, columns[k as int]) as int);
        match first_oversized(blobs, custody_columns, columns, k) {
            Some(column) => {
                if count > 4096 {
                    assert(columns[k as int] == column);
                } else {
                    let i = choose|i: int|
                        {
                            &&& k + 1 <= i < columns.len()
                            &&& #[trigger] columns[i] == column
                            &&& cells_present(blobs, place_of(custody_columns, column) as int)
                                > 4096
                            &&& forall|j: int|
                                k + 1 <= j < i ==> cells_present(
                                    blobs,
                                    place_of(custody_columns, #[trigger] columns[j]) as int,
                                ) <= 4096
                        };
                    assert(columns[i] == column);
                }
            },
            None => {},
        }
    }
}

/// No full column is left out: all that the assembler of partial columns returned, or else all that
/// could be turned into full ones, are kept, in their order.
pub proof fn law_all_full_columns_are_kept<T: EngineTypes>(outcome: MergeOutcome<T>)
    ensures
        outcome is Assembled && outcome->Assembled_0 is Some ==> {
            let merged = outcome->Assembled_0->0@;
            &&& full_columns(outcome) matches Some(columns)
            &&& columns.len() == merged.len()
            &&& forall|k: int| 0 <= k < merged.len() ==> #[trigger] columns[k] == merged[k]
        },
        outcome is Assembled && outcome->Assembled_0 is None ==> full_columns(outcome) is None,
        outcome is Converted ==> full_columns(outcome) == Some(
            outcome->Converted_0@.filter(|item: Option<T::Column>| item is Some).map_values(
                |item: Option<T::Column>| item->0,
            ),
        ),
{
    if outcome is Converted {
        law_present_is_a_filter(outcome->Converted_0@);
    }
}

/// A fetch that ends with nothing says so without an error, and one that fails says why.
pub proof fn law_ends_of_a_fetch<T: EngineTypes>(e: FetchEngineBlobError<T::Error>)
    ensures
        FetchState::<T>::nothing_fetched() == FetchState::<T>::Done(Ok(None)),
        FetchState::<T>::failed_with(e) == FetchState::<T>::Done(Err(e)),
{
}

/// A block that is imported already is fetched no further, whichever way its blobs came.
pub proof fn law_an_imported_block_is_left_alone<T: EngineTypes>(
    context: FetchContext,
    v1: Vec<Option<T::BlobAndProofV1>>,
    v2: Vec<Option<T::BlobAndProofV2>>,
    cells: Vec<BlobCellsAndProofs<T::Cell, T::Proof>>,
    result: FetchState<T>,
)
    requires
        ({
            ||| call_ensures(FetchState::<T>::imported_v1_answered, (context, v1, true), result)
            ||| call_ensures(
                FetchState::<T>::imported_v2_or_v3_answered,
                (context, v2, true),
                result,
            )
            ||| call_ensures(FetchState::<T>::imported_v4_answered, (context, cells, true), result)
        }),
    ensures
        result == FetchState::<T>::Done(Ok(None)),
{
}

/// An answer that failed ends the fetch with its error, whatever was asked.
pub proof fn law_a_failed_answer_ends_the_fetch<T: EngineTypes>(
    context: FetchContext,
    e: FetchEngineBlobError<T::Error>,
    result: FetchState<T>,
)
    requires
        ({
            ||| call_ensures(FetchState::<T>::v4_support_answered, (context, Err(e)), result)
            ||| call_ensures(
                FetchState::<T>::execution_block_hash_answered,
                (context, Err(e)),
                result,
            )
            ||| call_ensures(FetchState::<T>::v3_support_answered, (context, Err(e)), result)
            ||| call_ensures(FetchState::<T>::blobs_v1_received, (context, Err(e)), result)
            ||| call_ensures(FetchState::<T>::blobs_v2_received, (context, Err(e)), result)
            ||| call_ensures(FetchState::<T>::blobs_v3_received, (context, Err(e)), result)
            ||| call_ensures(FetchState::<T>::cells_received, (context, Err(e)), result)
            ||| call_ensures(FetchState::<T>::sidecars_built, (context, Err(e)), result)
            ||| call_ensures(
                FetchState::<T>::columns_computed,
                (context, Some(Ok(Err(e)))),
                result,
            )
            ||| call_ensures(FetchState::<T>::imported, (Err(e),), result)
        }),
    ensures
        result == FetchState::<T>::Done(Err(e)),
{
}

/// An execution layer that has nothing of what was requested ends the fetch without an error.
pub proof fn law_nothing_supplied_ends_the_fetch<T: EngineTypes>(
    context: FetchContext,
    result: FetchState<T>,
)
    requires
        ({
            ||| call_ensures(FetchState::<T>::blobs_v2_received, (context, Ok(None)), result)
            ||| call_ensures(FetchState::<T>::blobs_v3_received, (context, Ok(None)), result)
            ||| call_ensures(FetchState::<T>::cells_received, (context, Ok(None)), result)
        }),
    ensures
        result == FetchState::<T>::Done(Ok(None)),
{
}

/// Single cells come first: where the execution layer supplies them and the hash of the execution
/// block is known, exactly the cells of the columns in custody are requested. Where it does not
/// supply them or there is no hash, the fetch goes on with whole blobs.
pub proof fn law_cells_come_first<T: EngineTypes>(
    context: FetchContext,
    supported: bool,
    hash: Option<Hash256>,
    asked: FetchState<T>,
    requested: FetchState<T>,
)
    requires
        call_ensures(FetchState::<T>::v4_support_answered, (context, Ok(supported)), asked),
        call_ensures(
            FetchState::<T>::execution_block_hash_answered,
            (context, Ok(hash)),
            requested,
        ),
    ensures
        supported ==> asked == FetchState::<T>::AskExecutionBlockHash(context),
        !supported ==> asked == FetchState::<T>::AskV3Support(context),
        hash is None ==> requested == FetchState::<T>::AskV3Support(context),
        hash is Some ==> {
            &&& requested is RequestCellsV4
            &&& requested->RequestCellsV4_0 == context
            &&& requested->RequestCellsV4_1 == hash->0
            &&& forall|column: u64|
                column < 128 ==> #[trigger] bit_at(
                    requested->RequestCellsV4_2@,
                    column as int,
                ) == context.custody_columns@.contains(column)
        },
{
    if hash is Some {
        assert forall|column: u64| column < 128 implies #[trigger] bit_at(
            requested->RequestCellsV4_2@,
            column as int,
        ) == context.custody_columns@.contains(column) by {
            law_bitarray_holds_the_custody_columns(
                context.custody_columns@,
                requested->RequestCellsV4_2@,
                column,
            );
        }
    }
}

/// Some of the blobs are requested where the execution layer can supply some, else all or none.
pub proof fn law_some_blobs_are_requested_where_some_can_come<T: EngineTypes>(
    context: FetchContext,
    supported: bool,
    result: FetchState<T>,
)
    requires
        call_ensures(FetchState::<T>::v3_support_answered, (context, Ok(supported)), result),
    ensures
        result == (if supported {
            FetchState::<T>::RequestBlobsV3(context)
        } else {
            FetchState::<T>::RequestBlobsV2(context)
        }),
{
}

/// Cells of a block that is not imported are made into columns, all of them and as they came.
pub proof fn law_cells_are_made_into_columns<T: EngineTypes>(
    context: FetchContext,
    cells: Vec<BlobCellsAndProofs<T::Cell, T::Proof>>,
    received: FetchState<T>,
    result: FetchState<T>,
)
    requires
        cells@.len() > 0,
        call_ensures(FetchState::<T>::cells_received, (context, Ok(Some(cells))), received),
        call_ensures(FetchState::<T>::imported_v4_answered, (context, cells, false), result),
    ensures
        received == FetchState::<T>::CheckImportedV4(context, cells),
        result == FetchState::<T>::ComputeColumnsFromCells(context, cells),
{
}

/// Blobs of a block that is not imported are made into columns: those that the execution layer has
/// of them as they came, and all of them where it supplied as many as were asked for.
pub proof fn law_blobs_are_made_into_columns<T: EngineTypes>(
    context: FetchContext,
    some: Vec<Option<T::BlobAndProofV2>>,
    all: Vec<T::BlobAndProofV2>,
    received: FetchState<T>,
    received_all: FetchState<T>,
    result: FetchState<T>,
)
    requires
        call_ensures(FetchState::<T>::blobs_v3_received, (context, Ok(Some(some))), received),
        call_ensures(FetchState::<T>::blobs_v2_received, (context, Ok(Some(all))), received_all),
        call_ensures(FetchState::<T>::imported_v2_or_v3_answered, (context, some, false), result),
    ensures
        received == FetchState::<T>::CheckImportedV2OrV3(context, some),
        result == FetchState::<T>::ComputeColumns(context, some),
        all@.len() != context.versioned_hashes@.len() ==> received_all == FetchState::<T>::Done(
            Ok(None),
        ),
        all@.len() == context.versioned_hashes@.len() ==> {
            &&& received_all is CheckImportedV2OrV3
            &&& received_all->CheckImportedV2OrV3_0 == context
            &&& received_all->CheckImportedV2OrV3_1@.len() == all@.len()
            &&& forall|i: int|
                0 <= i < all@.len() ==> #[trigger] received_all->CheckImportedV2OrV3_1@[i] == Some(
                    all@[i],
                )
        },
{
}

/// Columns to import are all merged, as they were computed; without any, nothing was fetched.
pub proof fn law_computed_columns_are_all_merged<T: EngineTypes>(
    context: FetchContext,
    columns: Vec<Indexed<T::PartialColumn>>,
    result: FetchState<T>,
)
    requires
        call_ensures(
            FetchState::<T>::columns_computed,
            (context, Some(Ok(Ok(columns)))),
            result,
        ),
    ensures
        result == (if columns@.len() == 0 {
            FetchState::<T>::Done(Ok(None))
        } else {
            FetchState::<T>::MergeColumns(context, columns)
        }),
{
}

/// Every full column that the assembler of partial columns returned is published and imported, for
/// the same block, and none besides.
pub proof fn law_full_columns_are_all_published<T: EngineTypes>(
    context: FetchContext,
    full: Vec<T::Column>,
    result: FetchState<T>,
)
    requires
        full@.len() > 0,
        call_ensures(
            FetchState::<T>::columns_merged,
            (context, MergeOutcome::Assembled(Some(full))),
            result,
        ),
    ensures
        result is PublishAndImport,
        result->PublishAndImport_0 == context,
        result->PublishAndImport_1 is CustodyColumns,
        result->PublishAndImport_1->CustodyColumns_0@.len() == full@.len(),
        forall|k: int|
            0 <= k < full@.len()
                ==> #[trigger] result->PublishAndImport_1->CustodyColumns_0@[k] == full@[k],
{
}

/// Where there is no such assembler, every column that is full is published and imported, and none
/// besides.
pub proof fn law_converted_columns_are_all_published<T: EngineTypes>(
    context: FetchContext,
    converted: Vec<Option<T::Column>>,
    i: int,
    result: FetchState<T>,
)
    requires
        0 <= i < converted@.len(),
        converted@[i] is Some,
        call_ensures(
            FetchState::<T>::columns_merged,
            (context, MergeOutcome::Converted(converted)),
            result,
        ),
    ensures
        result is PublishAndImport,
        result->PublishAndImport_0 == context,
        result->PublishAndImport_1 is CustodyColumns,
        result->PublishAndImport_1->CustodyColumns_0@.contains(converted@[i]->0),
        forall|k: int|
            0 <= k < result->PublishAndImport_1->CustodyColumns_0@.len() ==> converted@.contains(
                Some(#[trigger] result->PublishAndImport_1->CustodyColumns_0@[k]),
            ),
{
    let items = converted@;
    lemma_some_place(items, i);
    lemma_places(items);
    law_places_hold_what_is_there(items, i);
    let k = places(items).index_of(i);
    let published = result->PublishAndImport_1->CustodyColumns_0@;
    assert(published =~= present(items)) by {
        law_present_is_a_filter(items);
    }
    assert(published[k] == items[i]->0);
    assert forall|l: int| 0 <= l < published.len() implies items.contains(
        Some(#[trigger] published[l]),
    ) by {
        let at = places(items)[l];
        assert(items[at] == Some(published[l]));
    }
}

/// A blob is published exactly where it was built, was not observed and is not known: asking for
/// either drops nothing else.
pub proof fn law_new_blobs_are_all_published<T: EngineTypes>(
    context: FetchContext,
    blobs: Vec<Indexed<T::Blob>>,
    observed: Option<HashSet<u64>>,
    left: Vec<Indexed<T::Blob>>,
    known: Option<Vec<u64>>,
    i: int,
    result: FetchState<T>,
)
    requires
        call_ensures(
            FetchState::<T>::observed_blobs_answered,
            (context, blobs, &observed),
            FetchState::<T>::AskKnownBlobs(context, left),
        ),
        call_ensures(FetchState::<T>::known_blobs_answered, (context, left, &known), result),
        0 <= i < blobs@.len(),
        observed is Some ==> !observed->0@.contains(blobs@[i].index),
        known is Some ==> !known->0@.contains(blobs@[i].index),
    ensures
        result is PublishAndImport,
        result->PublishAndImport_0 == context,
        result->PublishAndImport_1 is Blobs,
        result->PublishAndImport_1->Blobs_0@.contains(blobs@[i]),
{
    let unobserved = not_seen(observed_set(observed));
    let unknown = not_seen(set_of(known));
    law_wanted_are_selected(blobs@, unobserved, i);
    let j = left@.index_of(blobs@[i]);
    assert(left@[j] == blobs@[i]);
    law_wanted_are_selected(left@, unknown, j);
    assert(selected(left@, unknown).contains(blobs@[i]));
}

} // verus!
