//! Gossip verification of payload column sidecars.
//!
//! Payload columns carry no signature of their own. They are authenticated through the chain
//! block signature, bid, `payload_columns_root`, column inclusion proof, so that verification needs
//! the sidecar's beacon block to be known before the column can be judged.

use crate::error::PayloadColumnError;
use crate::eth_spec::{EthSpec, CELLS_PER_EXT_BLOB};
use crate::payload_codec::{
    data_decoded, decodes_to, field_decoded, law_unpacked_fields_decode, PayloadColumnData,
};
use crate::assembly_cache::AssemblyView;
use crate::payload_column_assembler::{
    law_init_pushes_out_the_least_recently_used, law_insert_adds_the_column,
    law_lookup_survives_use, law_new_block_is_entered, law_other_blocks_unchanged, AssemblerView,
    InsertOutcome, PayloadColumnAssembler,
};
use crate::payload_column_sidecar::{sidecars_of, PayloadColumnSidecar, SidecarView};
use crate::payload_column_subnet_id::PayloadColumnSubnetId;
use crate::payload_column_utils::{decoded_columns, payload_columns_to_payload_data};
use crate::primitives::{ColumnIndex, Epoch, Hash256, Slot};
use std::sync::Arc;
use vstd::prelude::*;
use vstd::std_specs::convert::FromSpecImpl;

verus! {

/// Why the store cannot answer, in its own words.
#[derive(Debug)]
pub struct StoreError(pub String);

/// Why the beacon chain cannot process something.
#[derive(Debug)]
pub enum BeaconChainError {
    /// The clock cannot be read.
    UnableToReadSlot,
    /// The store cannot answer.
    DBError(StoreError),
    /// The block has no bid, with the reason.
    BeaconStateError(String),
    /// The block is not in the store.
    MissingBeaconBlock(Hash256),
    /// What payload columns are to become cannot be built, with the reason.
    UnableToBuildPayloadColumnSidecar(BuildFailure),
}

/// Why something cannot be built of payload columns.
#[derive(Debug)]
pub enum BuildFailure {
    /// The payload columns do not decode.
    PayloadColumns(PayloadColumnError),
    /// The infinity signature cannot be made, with the reason.
    InfinitySignature(String),
}

/// An error occurred while validating a gossip payload column.
#[derive(Debug)]
pub enum GossipPayloadColumnError {
    /// There was an error whilst processing the column. It is not known if it is valid or invalid.
    ///
    /// ## Peer scoring
    ///
    /// We were unable to process this column due to an internal error. It's unclear if the column
    /// is valid.
    BeaconChainError(Box<BeaconChainError>),
    /// The column was gossiped over an incorrect subnet.
    ///
    /// ## Peer scoring
    ///
    /// The column is invalid or the peer is faulty.
    InvalidSubnetId { received: u64, expected: u64 },
    /// The column index is out of range.
    ///
    /// ## Peer scoring
    ///
    /// The column is invalid and the peer is faulty.
    InvalidColumnIndex(ColumnIndex),
    /// The column is from a slot later than the current slot (with respect to gossip clock
    /// disparity).
    ///
    /// ## Peer scoring
    ///
    /// Assuming the local clock is correct, the peer has sent an invalid message.
    FutureSlot { message_slot: Slot, latest_permissible_slot: Slot },
    /// The column is for a slot at or before the finalized slot.
    ///
    /// ## Peer scoring
    ///
    /// It's unclear if this column is valid, but it is useless to us.
    PastFinalizedSlot { column_slot: Slot, finalized_slot: Slot },
    /// The beacon block this column refers to is not known.
    ///
    /// ## Peer scoring
    ///
    /// The block may simply not have arrived yet, so this is not a peer fault. The column should
    /// be queued for reprocessing.
    UnknownBeaconBlock(Hash256),
    /// The column's slot does not match the slot of its beacon block.
    ///
    /// ## Peer scoring
    ///
    /// The column is invalid and the peer is faulty.
    SlotMismatch { column_slot: Slot, block_slot: Slot },
    /// The beacon block carries no execution bid to commit to payload columns.
    ///
    /// ## Peer scoring
    ///
    /// The column is invalid and the peer is faulty.
    NotGloasBlock(Hash256),
    /// The column's inclusion proof does not verify against the bid's `payload_columns_root`.
    ///
    /// ## Peer scoring
    ///
    /// The column is invalid and the peer is faulty.
    InvalidInclusionProof,
    /// We have already seen a column with this index for this block.
    ///
    /// ## Peer scoring
    ///
    /// The column is valid but not useful. Not a peer fault, as gossip duplicates are expected.
    PriorKnown { block_root: Hash256, index: ColumnIndex },
    /// The payload for this block has already been recovered.
    ///
    /// ## Peer scoring
    ///
    /// The column is valid but redundant. Not a peer fault.
    AlreadyReconstructed { block_root: Hash256 },
}

impl GossipPayloadColumnError {
    /// Whether the error shows the sending peer at fault.
    pub open spec fn is_peer_fault(self) -> bool {
        ||| self is InvalidSubnetId
        ||| self is InvalidColumnIndex
        ||| self is FutureSlot
        ||| self is SlotMismatch
        ||| self is NotGloasBlock
        ||| self is InvalidInclusionProof
    }

    /// Whether the sending peer should be penalised for this error.
    pub fn penalize_peer(&self) -> (result: bool)
        ensures
            result == self.is_peer_fault(),
            // The peer is blamed for all but what may be our own fault, late, early or a duplicate.
            !result <==> {
                ||| self is BeaconChainError
                ||| self is PastFinalizedSlot
                ||| self is UnknownBeaconBlock
                ||| self is PriorKnown
                ||| self is AlreadyReconstructed
            },
    {
        match self {
            GossipPayloadColumnError::InvalidSubnetId { .. } => true,
            GossipPayloadColumnError::InvalidColumnIndex(_) => true,
            GossipPayloadColumnError::FutureSlot { .. } => true,
            GossipPayloadColumnError::SlotMismatch { .. } => true,
            GossipPayloadColumnError::NotGloasBlock(_) => true,
            GossipPayloadColumnError::InvalidInclusionProof => true,
            GossipPayloadColumnError::BeaconChainError(_) => false,
            GossipPayloadColumnError::PastFinalizedSlot { .. } => false,
            GossipPayloadColumnError::UnknownBeaconBlock(_) => false,
            GossipPayloadColumnError::PriorKnown { .. } => false,
            GossipPayloadColumnError::AlreadyReconstructed { .. } => false,
        }
    }
}

impl From<BeaconChainError> for GossipPayloadColumnError {
    fn from(e: BeaconChainError) -> (result: Self) {
        GossipPayloadColumnError::BeaconChainError(Box::new(e))
    }
}

impl FromSpecImpl<BeaconChainError> for GossipPayloadColumnError {
    open spec fn obeys_from_spec() -> bool {
        true
    }

    open spec fn from_spec(e: BeaconChainError) -> Self {
        GossipPayloadColumnError::BeaconChainError(Box::new(e))
    }
}

impl From<StoreError> for GossipPayloadColumnError {
    fn from(e: StoreError) -> (result: Self) {
        GossipPayloadColumnError::BeaconChainError(Box::new(BeaconChainError::DBError(e)))
    }
}

impl FromSpecImpl<StoreError> for GossipPayloadColumnError {
    open spec fn obeys_from_spec() -> bool {
        true
    }

    open spec fn from_spec(e: StoreError) -> Self {
        GossipPayloadColumnError::BeaconChainError(Box::new(BeaconChainError::DBError(e)))
    }
}

/// What a block's signed bid says of its payload, as far as payload columns need it.
#[derive(Clone, Copy, Debug)]
pub struct ExecutionPayloadBid {
    pub payload_columns_root: Hash256,
    pub builder_index: u64,
    pub parent_block_root: Hash256,
}

/// A block as the store holds it.
#[derive(Debug)]
pub enum DatabaseBlock {
    /// With its body: the bid, or why the body has none.
    Full(Result<ExecutionPayloadBid, String>),
    /// Without its body.
    Blinded,
}

/// A payload column sidecar that has passed gossip validation and been stored in the assembler.
#[derive(Debug)]
pub struct GossipVerifiedPayloadColumn {
    pub sidecar: Arc<PayloadColumnSidecar>,
    /// How many distinct columns are now held for this block.
    pub columns_held: usize,
}

impl GossipVerifiedPayloadColumn {
    pub fn index(&self) -> (result: ColumnIndex)
        ensures
            result == self.sidecar@.index,
    {
        self.sidecar.index
    }

    pub fn block_root(&self) -> (result: Hash256)
        ensures
            result == self.sidecar@.beacon_block_root,
    {
        self.sidecar.beacon_block_root
    }

    pub fn slot(&self) -> (result: Slot)
        ensures
            result == self.sidecar@.slot,
    {
        self.sidecar.slot
    }
}

/// What is known of the chain when a column arrives.
#[derive(Clone, Copy, Debug)]
pub struct ChainStatus {
    /// The current slot, with the tolerance for early messages; nothing where the clock cannot be
    /// read.
    pub latest_permissible_slot: Option<Slot>,
    /// The epoch of the finalized checkpoint.
    pub finalized_epoch: Epoch,
    /// The slot of the column's beacon block, where fork choice knows the block.
    pub block_slot: Option<Slot>,
}

/// What speaks against a column before its commitment is looked at: the first of an index out of
/// range, another subnet than its own, a slot of the future, a slot that is finalized, an unknown
/// block, and another slot than the block's.
pub open spec fn precheck(
    sidecar: SidecarView,
    subnet_id: u64,
    status: ChainStatus,
    slots_per_epoch: u64,
) -> Option<GossipPayloadColumnError> {
    let finalized_slot = status.finalized_epoch.spec_start_slot(slots_per_epoch);
    if sidecar.index >= CELLS_PER_EXT_BLOB {
        Some(GossipPayloadColumnError::InvalidColumnIndex(sidecar.index))
    } else if sidecar.index != subnet_id {
        Some(
            GossipPayloadColumnError::InvalidSubnetId {
                received: subnet_id,
                expected: sidecar.index,
            },
        )
    } else if status.latest_permissible_slot is None {
        Some(
            GossipPayloadColumnError::BeaconChainError(
                Box::new(BeaconChainError::UnableToReadSlot),
            ),
        )
    } else if sidecar.slot.0 > (status.latest_permissible_slot->0).0 {
        Some(
            GossipPayloadColumnError::FutureSlot {
                message_slot: sidecar.slot,
                latest_permissible_slot: status.latest_permissible_slot->0,
            },
        )
    } else if sidecar.slot.0 <= finalized_slot.0 {
        Some(
            GossipPayloadColumnError::PastFinalizedSlot {
                column_slot: sidecar.slot,
                finalized_slot,
            },
        )
    } else if status.block_slot is None {
        Some(GossipPayloadColumnError::UnknownBeaconBlock(sidecar.beacon_block_root))
    } else if status.block_slot->0 != sidecar.slot {
        Some(
            GossipPayloadColumnError::SlotMismatch {
                column_slot: sidecar.slot,
                block_slot: status.block_slot->0,
            },
        )
    } else {
        None
    }
}

/// Checks a column before its commitment is looked at, without touching the store.
pub fn check_before_commitment<E: EthSpec>(
    sidecar: &PayloadColumnSidecar,
    subnet_id: PayloadColumnSubnetId,
    status: ChainStatus,
) -> (result: Result<(), GossipPayloadColumnError>)
    ensures
        result == match precheck(sidecar@, subnet_id@, status, E::spec_slots_per_epoch()) {
            Some(e) => Err::<(), GossipPayloadColumnError>(e),
            None => Ok(()),
        },
        // A column passes exactly where it came over its own subnet, and its slot is that of its
        // block, is not of the future, and comes after the first slot of the finalized epoch.
        result is Ok <==> {
            &&& sidecar.index < 128
            &&& sidecar.index == subnet_id@
            &&& status.latest_permissible_slot matches Some(latest)
            &&& sidecar.slot.0 <= latest.0
            &&& sidecar.slot.0 > status.finalized_epoch.0 * E::spec_slots_per_epoch()
            &&& status.block_slot == Some(sidecar.slot)
        },
{
    proof {
        E::shared_geometry();
    }
    let index: u64 = sidecar.index;
    let subnet: u64 = u64::from(subnet_id);

    // There is one subnet per column, so the index and the subnet must agree.
    if index >= E::number_of_columns() as u64 {
        return Err(GossipPayloadColumnError::InvalidColumnIndex(index));
    }
    if index != subnet {
        return Err(
            GossipPayloadColumnError::InvalidSubnetId { received: subnet, expected: index },
        );
    }
    let latest_permissible_slot = match status.latest_permissible_slot {
        Some(slot) => slot,
        None => {
            return Err(GossipPayloadColumnError::from(BeaconChainError::UnableToReadSlot));
        },
    };
    let column_slot = sidecar.slot;
    if column_slot.as_u64() > latest_permissible_slot.as_u64() {
        return Err(
            GossipPayloadColumnError::FutureSlot {
                message_slot: column_slot,
                latest_permissible_slot,
            },
        );
    }
    let finalized_slot = status.finalized_epoch.start_slot(E::slots_per_epoch());
    if column_slot.as_u64() <= finalized_slot.as_u64() {
        return Err(GossipPayloadColumnError::PastFinalizedSlot { column_slot, finalized_slot });
    }
    // The commitment lives in the block's bid, so the block must be known. If it is not, the column
    // may simply have outrun its block.
    let block_slot = match status.block_slot {
        Some(slot) => slot,
        None => {
            return Err(
                GossipPayloadColumnError::UnknownBeaconBlock(sidecar.beacon_block_root),
            );
        },
    };
    if block_slot != column_slot {
        return Err(GossipPayloadColumnError::SlotMismatch { column_slot, block_slot });
    }
    Ok(())
}

/// What comes of a column for a block whose columns have the given root: how many columns are held
/// with it, or what speaks against it.
pub open spec fn verdict(
    view: AssemblerView,
    sidecar: SidecarView,
    payload_columns_root: Hash256,
) -> Result<usize, GossipPayloadColumnError> {
    let block_root = sidecar.beacon_block_root;
    if !sidecar.included_under(payload_columns_root) {
        Err(GossipPayloadColumnError::InvalidInclusionProof)
    } else {
        match view.insert_outcome(block_root, sidecar) {
            InsertOutcome::Stored { columns_held } => Ok(columns_held),
            InsertOutcome::AlreadyKnown => Err(
                GossipPayloadColumnError::PriorKnown { block_root, index: sidecar.index },
            ),
            InsertOutcome::AlreadyReconstructed => Err(
                GossipPayloadColumnError::AlreadyReconstructed { block_root },
            ),
        }
    }
}

/// What the assembler holds after the verdict.
pub open spec fn after_verdict(
    view: AssemblerView,
    sidecar: SidecarView,
    payload_columns_root: Hash256,
) -> AssemblerView {
    if sidecar.included_under(payload_columns_root) {
        view.after_insert(sidecar.beacon_block_root, sidecar)
    } else {
        view
    }
}

/// What verification of `sidecar` returned says what `expected` does.
pub open spec fn returns_verdict(
    result: Result<GossipVerifiedPayloadColumn, GossipPayloadColumnError>,
    sidecar: Arc<PayloadColumnSidecar>,
    expected: Result<usize, GossipPayloadColumnError>,
) -> bool {
    match expected {
        Ok(columns_held) => result is Ok && result->Ok_0.sidecar == sidecar
            && result->Ok_0.columns_held == columns_held,
        Err(e) => result is Err && result->Err_0 == e,
    }
}

/// Judges a column by the `payload_columns_root` of its block, and stores it if it is valid and
/// new.
pub fn store_if_included<E: EthSpec>(
    assembler: &mut PayloadColumnAssembler<E>,
    sidecar: Arc<PayloadColumnSidecar>,
    payload_columns_root: Hash256,
) -> (result: Result<GossipVerifiedPayloadColumn, GossipPayloadColumnError>)
    requires
        old(assembler)@.wf(),
    ensures
        final(assembler)@.wf(),
        final(assembler)@ == after_verdict(old(assembler)@, sidecar@, payload_columns_root),
        returns_verdict(
            result,
            sidecar,
            verdict(old(assembler)@, sidecar@, payload_columns_root),
        ),
        // A column is stored exactly where it is included, its block is held and was not recovered,
        // and no column of its index is held.
        result is Ok <==> {
            &&& sidecar@.included_under(payload_columns_root)
            &&& old(assembler)@.lookup(sidecar@.beacon_block_root) matches Some(assembly)
            &&& !assembly.reconstructed
            &&& !assembly.columns.contains_key(sidecar@.index)
        },
        result is Ok ==> {
            let assembly = old(assembler)@.lookup(sidecar@.beacon_block_root)->0;
            &&& result->Ok_0.sidecar == sidecar
            &&& result->Ok_0.columns_held == assembly.columns.len() + 1
            &&& final(assembler)@.lookup(sidecar@.beacon_block_root) == Some(
                AssemblyView {
                    columns: assembly.columns.insert(sidecar@.index, sidecar@),
                    ..assembly
                },
            )
        },
        final(assembler)@.capacity == old(assembler)@.capacity,
        forall|root: Hash256|
            #![trigger final(assembler)@.lookup(root)]
            root != sidecar@.beacon_block_root || result is Err ==> final(assembler)@.lookup(root)
                == old(assembler)@.lookup(root),
        !sidecar@.included_under(payload_columns_root) ==> result == Err::<
            GossipVerifiedPayloadColumn,
            GossipPayloadColumnError,
        >(GossipPayloadColumnError::InvalidInclusionProof) && *final(assembler) == *old(assembler),
        sidecar@.included_under(payload_columns_root) && result is Err ==> {
            let block_root = sidecar@.beacon_block_root;
            let held = old(assembler)@.lookup(block_root);
            result->Err_0 == if held is Some && held->0.reconstructed {
                GossipPayloadColumnError::AlreadyReconstructed { block_root }
            } else {
                GossipPayloadColumnError::PriorKnown { block_root, index: sidecar@.index }
            }
        },
{
    let block_root = sidecar.beacon_block_root;
    let index: u64 = sidecar.index;
    if !sidecar.verify_inclusion_proof(payload_columns_root) {
        return Err(GossipPayloadColumnError::InvalidInclusionProof);
    }
    match assembler.insert(block_root, sidecar.clone()) {
        InsertOutcome::Stored { columns_held } => Ok(
            GossipVerifiedPayloadColumn { sidecar, columns_held },
        ),
        InsertOutcome::AlreadyKnown => Err(
            GossipPayloadColumnError::PriorKnown { block_root, index },
        ),
        InsertOutcome::AlreadyReconstructed => Err(
            GossipPayloadColumnError::AlreadyReconstructed { block_root },
        ),
    }
}

/// The root that a block's bid commits to, as the store answers; or what speaks against a column of
/// the block.
pub open spec fn loaded_root(
    block_root: Hash256,
    stored: Result<Option<DatabaseBlock>, StoreError>,
) -> Result<Hash256, GossipPayloadColumnError> {
    match stored {
        Err(e) => Err(
            GossipPayloadColumnError::BeaconChainError(Box::new(BeaconChainError::DBError(e))),
        ),
        Ok(Some(DatabaseBlock::Full(Ok(bid)))) => Ok(bid.payload_columns_root),
        Ok(Some(DatabaseBlock::Full(Err(_)))) => Err(
            GossipPayloadColumnError::NotGloasBlock(block_root),
        ),
        Ok(Some(DatabaseBlock::Blinded)) | Ok(None) => Err(
            GossipPayloadColumnError::UnknownBeaconBlock(block_root),
        ),
    }
}

/// Reads `payload_columns_root` out of the bid of a block, as the store answered for it.
pub fn load_payload_columns_root(
    block_root: Hash256,
    stored: Result<Option<DatabaseBlock>, StoreError>,
) -> (result: Result<Hash256, GossipPayloadColumnError>)
    ensures
        result == loaded_root(block_root, stored),
        // The root is that of the bid, wherever the store has the full block and the block a bid.
        stored is Ok && stored->Ok_0 is Some && stored->Ok_0->0 is Full ==> {
            let bid = stored->Ok_0->0->Full_0;
            &&& bid is Ok ==> result is Ok && result->Ok_0 == bid->Ok_0.payload_columns_root
            &&& bid is Err ==> result == Err::<Hash256, GossipPayloadColumnError>(
                GossipPayloadColumnError::NotGloasBlock(block_root),
            )
        },
        stored is Ok && (stored->Ok_0 is None || stored->Ok_0->0 is Blinded) ==> result == Err::<
            Hash256,
            GossipPayloadColumnError,
        >(GossipPayloadColumnError::UnknownBeaconBlock(block_root)),
        stored is Err ==> {
            &&& result is Err
            &&& result->Err_0 matches GossipPayloadColumnError::BeaconChainError(e)
            &&& *e == BeaconChainError::DBError(stored->Err_0)
        },
{
    match stored {
        Err(e) => Err(GossipPayloadColumnError::from(e)),
        Ok(Some(DatabaseBlock::Full(bid))) => match bid {
            Ok(bid) => Ok(bid.payload_columns_root),
            Err(_) => Err(GossipPayloadColumnError::NotGloasBlock(block_root)),
        },
        Ok(Some(DatabaseBlock::Blinded)) => Err(
            GossipPayloadColumnError::UnknownBeaconBlock(block_root),
        ),
        Ok(None) => Err(GossipPayloadColumnError::UnknownBeaconBlock(block_root)),
    }
}

/// The part of the beacon chain that collects payload columns.
#[verifier::reject_recursive_types(E)]
pub struct BeaconChain<E: EthSpec> {
    pub payload_column_assembler: PayloadColumnAssembler<E>,
}

/// An execution payload envelope: what the columns hold, with what the block says of it.
#[derive(Debug)]
pub struct ExecutionPayloadEnvelope<P, R> {
    pub payload: P,
    pub execution_requests: R,
    pub builder_index: u64,
    pub beacon_block_root: Hash256,
    pub parent_beacon_block_root: Hash256,
}

/// An execution payload envelope with a signature.
#[derive(Debug)]
pub struct SignedExecutionPayloadEnvelope<P, R, S> {
    pub message: ExecutionPayloadEnvelope<P, R>,
    pub signature: S,
}

/// Whether every column that is held belongs to the block that it is held for, lies in range, and
/// is proved to lie under the root of that block's columns.
pub open spec fn authenticated(view: AssemblerView) -> bool {
    forall|block_root: Hash256, index: ColumnIndex|
        view.lookup(block_root) is Some && #[trigger] view.lookup(
            block_root,
        )->0.columns.contains_key(index) ==> {
            let column = view.lookup(block_root)->0.columns[index];
            &&& column.beacon_block_root == block_root
            &&& column.index == index
            &&& index < CELLS_PER_EXT_BLOB
            &&& column.included_under(view.lookup(block_root)->0.payload_columns_root)
        }
}

/// What comes of a column that passed the first checks, for a block that is new to the assembler
/// and whose root `loaded` answers for.
pub open spec fn judged_by_loaded_root(
    before: AssemblerView,
    after: AssemblerView,
    sidecar: Arc<PayloadColumnSidecar>,
    loaded: Result<Hash256, GossipPayloadColumnError>,
    result: Result<GossipVerifiedPayloadColumn, GossipPayloadColumnError>,
) -> bool {
    match loaded {
        Err(e) => result is Err && result->Err_0 == e && after == before,
        Ok(root) => judged_by_root(
            before.after_init(sidecar@.beacon_block_root, sidecar@.slot, root),
            after,
            sidecar,
            root,
            result,
        ),
    }
}

/// What comes of a column that passed the first checks, for a block whose columns have the given
/// root.
pub open spec fn judged_by_root(
    before: AssemblerView,
    after: AssemblerView,
    sidecar: Arc<PayloadColumnSidecar>,
    payload_columns_root: Hash256,
    result: Result<GossipVerifiedPayloadColumn, GossipPayloadColumnError>,
) -> bool {
    &&& returns_verdict(result, sidecar, verdict(before, sidecar@, payload_columns_root))
    &&& after == after_verdict(before, sidecar@, payload_columns_root)
}

/// Whether a column is one to accept: of the subnet that it came over, from a slot that is neither
/// of the future nor finalized, which is the slot of its block.
pub open spec fn is_acceptable(
    sidecar: SidecarView,
    subnet_id: u64,
    status: ChainStatus,
    slots_per_epoch: u64,
) -> bool {
    &&& sidecar.index == subnet_id
    &&& sidecar.index < CELLS_PER_EXT_BLOB
    &&& status.latest_permissible_slot is Some
    &&& sidecar.slot.0 <= (status.latest_permissible_slot->0).0
    &&& sidecar.slot.0 > status.finalized_epoch.spec_start_slot(slots_per_epoch).0
    &&& status.block_slot == Some(sidecar.slot)
}

impl<E: EthSpec> BeaconChain<E> {
    /// Validates a payload column sidecar received on the subnet `subnet_id` and, if it is new,
    /// stores it in the payload column assembler.
    ///
    /// `load` reads the `payload_columns_root` of the column's block out of its bid. It is called
    /// only for a column that passed the first checks, and only for a block that the assembler does
    /// not hold.
    pub fn verify_payload_column_for_gossip<
        F: FnOnce() -> Result<Hash256, GossipPayloadColumnError>,
    >(
        &mut self,
        sidecar: Arc<PayloadColumnSidecar>,
        subnet_id: PayloadColumnSubnetId,
        status: ChainStatus,
        load: F,
    ) -> (result: Result<GossipVerifiedPayloadColumn, GossipPayloadColumnError>)
        requires
            old(self).payload_column_assembler@.wf(),
            ({
                &&& precheck(sidecar@, subnet_id@, status, E::spec_slots_per_epoch()) is None
                &&& old(self).payload_column_assembler@.lookup(sidecar@.beacon_block_root) is None
            }) ==> call_requires(load, ()),
        ensures
            final(self).payload_column_assembler@.wf(),
            match precheck(sidecar@, subnet_id@, status, E::spec_slots_per_epoch()) {
                Some(e) => {
                    &&& result is Err
                    &&& result->Err_0 == e
                    &&& final(self).payload_column_assembler@ == old(self).payload_column_assembler@
                },
                None => match old(self).payload_column_assembler@.lookup(
                    sidecar@.beacon_block_root,
                ) {
                    Some(assembly) => judged_by_root(
                        old(self).payload_column_assembler@.touched(sidecar@.beacon_block_root),
                        final(self).payload_column_assembler@,
                        sidecar,
                        assembly.payload_columns_root,
                        result,
                    ),
                    None => exists|loaded: Result<Hash256, GossipPayloadColumnError>|
                        call_ensures(load, (), loaded) && #[trigger] judged_by_loaded_root(
                            old(self).payload_column_assembler@,
                            final(self).payload_column_assembler@,
                            sidecar,
                            loaded,
                            result,
                        ),
                },
            },
            result is Ok ==> is_acceptable(
                sidecar@,
                subnet_id@,
                status,
                E::spec_slots_per_epoch(),
            ),
            authenticated(old(self).payload_column_assembler@) ==> authenticated(
                final(self).payload_column_assembler@,
            ),
            // Nothing passes but what came over its own subnet, for the slot of its block, which is
            // neither of the future nor finalized. What does not pass changes nothing.
            !({
                &&& sidecar@.index < 128
                &&& sidecar@.index == subnet_id@
                &&& status.latest_permissible_slot is Some
                &&& sidecar@.slot.0 <= (status.latest_permissible_slot->0).0
                &&& sidecar@.slot.0 > status.finalized_epoch.0 * E::spec_slots_per_epoch()
                &&& status.block_slot == Some(sidecar@.slot)
            }) ==> result is Err && final(self).payload_column_assembler@ == old(
                self,
            ).payload_column_assembler@,
            // What passes is stored where its block is held and was not recovered, no column of its
            // index is held, and it is included under the root of the block.
            ({
                &&& sidecar@.index < 128
                &&& sidecar@.index == subnet_id@
                &&& status.latest_permissible_slot is Some
                &&& sidecar@.slot.0 <= (status.latest_permissible_slot->0).0
                &&& sidecar@.slot.0 > status.finalized_epoch.0 * E::spec_slots_per_epoch()
                &&& status.block_slot == Some(sidecar@.slot)
                &&& old(self).payload_column_assembler@.lookup(sidecar@.beacon_block_root) is Some
            }) ==> {
                let assembly = old(self).payload_column_assembler@.lookup(
                    sidecar@.beacon_block_root,
                )->0;
                result is Ok <==> {
                    &&& sidecar@.included_under(assembly.payload_columns_root)
                    &&& !assembly.reconstructed
                    &&& !assembly.columns.contains_key(sidecar@.index)
                }
            },
            // What passes and is not stored is answered for the first of these that does not hold,
            // and changes nothing of what is held.
            ({
                &&& sidecar@.index < 128
                &&& sidecar@.index == subnet_id@
                &&& status.latest_permissible_slot is Some
                &&& sidecar@.slot.0 <= (status.latest_permissible_slot->0).0
                &&& sidecar@.slot.0 > status.finalized_epoch.0 * E::spec_slots_per_epoch()
                &&& status.block_slot == Some(sidecar@.slot)
                &&& old(self).payload_column_assembler@.lookup(sidecar@.beacon_block_root) is Some
                &&& result is Err
            }) ==> {
                let block_root = sidecar@.beacon_block_root;
                let assembly = old(self).payload_column_assembler@.lookup(block_root)->0;
                &&& result->Err_0 == if !sidecar@.included_under(assembly.payload_columns_root) {
                    GossipPayloadColumnError::InvalidInclusionProof
                } else if assembly.reconstructed {
                    GossipPayloadColumnError::AlreadyReconstructed { block_root }
                } else {
                    GossipPayloadColumnError::PriorKnown { block_root, index: sidecar@.index }
                }
                &&& final(self).payload_column_assembler@.lookup(block_root) == Some(assembly)
            },
            // Nothing changes for another block, unless a new one pushes it out.
            old(self).payload_column_assembler@.lookup(sidecar@.beacon_block_root) is Some
                ==> forall|other: Hash256|
                #![trigger final(self).payload_column_assembler@.lookup(other)]
                other != sidecar@.beacon_block_root ==> final(
                    self
                ).payload_column_assembler@.lookup(other) == old(
                    self,
                ).payload_column_assembler@.lookup(other),
            final(self).payload_column_assembler@.capacity == old(
                self,
            ).payload_column_assembler@.capacity,
            // The first column of a block is stored where it is included under the root that was
            // loaded for the block.
            ({
                &&& sidecar@.index < 128
                &&& sidecar@.index == subnet_id@
                &&& status.latest_permissible_slot is Some
                &&& sidecar@.slot.0 <= (status.latest_permissible_slot->0).0
                &&& sidecar@.slot.0 > status.finalized_epoch.0 * E::spec_slots_per_epoch()
                &&& status.block_slot == Some(sidecar@.slot)
                &&& old(self).payload_column_assembler@.lookup(sidecar@.beacon_block_root) is None
                &&& old(self).payload_column_assembler@.capacity > 0
            }) ==> exists|loaded: Result<Hash256, GossipPayloadColumnError>|
                {
                    &&& #[trigger] call_ensures(load, (), loaded)
                    &&& result is Ok <==> loaded is Ok && sidecar@.included_under(loaded->Ok_0)
                    &&& loaded is Err ==> result->Err_0 == loaded->Err_0
                    &&& loaded is Ok && result is Err ==> result->Err_0
                        == GossipPayloadColumnError::InvalidInclusionProof
                },
            // What is stored is held for its block from then on, with what was held before.
            result is Ok ==> {
                let before = old(self).payload_column_assembler@.lookup(
                    sidecar@.beacon_block_root,
                );
                let held = if before is Some {
                    before->0.columns
                } else {
                    Map::<ColumnIndex, SidecarView>::empty()
                };
                let after = final(self).payload_column_assembler@.lookup(
                    sidecar@.beacon_block_root,
                );
                &&& result->Ok_0.sidecar == sidecar
                &&& result->Ok_0.columns_held == held.len() + 1
                &&& after is Some
                &&& after->0.columns == held.insert(sidecar@.index, sidecar@)
            },
    {
        match check_before_commitment::<E>(&*sidecar, subnet_id, status) {
            Ok(_) => {},
            Err(e) => return Err(e),
        }
        let block_root = sidecar.beacon_block_root;
        let slot = sidecar.slot;
        let ghost before = self.payload_column_assembler@;

        // Loading the block is the expensive step, so the assembler caches the root it yields for
        // the remaining columns of this block.
        let answer = self.payload_column_assembler.payload_columns_root_or_init(
            block_root,
            slot,
            load,
        );
        let payload_columns_root = match answer {
            Ok(root) => root,
            Err(e) => {
                assert(judged_by_loaded_root(
                    before,
                    self.payload_column_assembler@,
                    sidecar,
                    answer,
                    Err(e),
                ));
                return Err(e);
            },
        };
        let ghost entered = self.payload_column_assembler@;
        let result = store_if_included(
            &mut self.payload_column_assembler,
            sidecar,
            payload_columns_root,
        );
        proof {
            let after = self.payload_column_assembler@;
            assert(judged_by_root(entered, after, sidecar, payload_columns_root, result));
            match before.lookup(block_root) {
                Some(_) => {
                    law_lookup_survives_use(before, block_root, block_root);
                },
                None => {
                    assert(judged_by_loaded_root(before, after, sidecar, answer, result));
                    law_new_block_is_entered(before, block_root, slot, payload_columns_root);
                },
            }
            if authenticated(before) {
                match before.lookup(block_root) {
                    Some(_) => {
                        law_use_keeps_columns_authenticated(before, block_root);
                    },
                    None => {
                        law_init_keeps_columns_authenticated(
                            before,
                            block_root,
                            slot,
                            payload_columns_root,
                        );
                    },
                }
                law_verdict_keeps_columns_authenticated(entered, sidecar@, payload_columns_root);
            }
        }
        result
    }
}

/// The envelope of a block around a payload and its requests, by the store's answer for the block
/// and then by whether there is an infinity signature.
pub open spec fn envelope_around<P, R, S>(
    block_root: Hash256,
    payload: P,
    execution_requests: R,
    stored: Result<Option<DatabaseBlock>, StoreError>,
    infinity_signature: Result<S, String>,
) -> Result<SignedExecutionPayloadEnvelope<P, R, S>, BeaconChainError> {
    match stored {
        Ok(Some(DatabaseBlock::Full(Ok(bid)))) => match infinity_signature {
            Ok(signature) => Ok(
                SignedExecutionPayloadEnvelope {
                    message: ExecutionPayloadEnvelope {
                        payload,
                        execution_requests,
                        builder_index: bid.builder_index,
                        beacon_block_root: block_root,
                        parent_beacon_block_root: bid.parent_block_root,
                    },
                    signature,
                },
            ),
            Err(reason) => Err(
                BeaconChainError::UnableToBuildPayloadColumnSidecar(
                    BuildFailure::InfinitySignature(reason),
                ),
            ),
        },
        Ok(Some(DatabaseBlock::Full(Err(reason)))) => Err(
            BeaconChainError::BeaconStateError(reason),
        ),
        Ok(Some(DatabaseBlock::Blinded)) => Err(BeaconChainError::MissingBeaconBlock(block_root)),
        Ok(None) => Err(BeaconChainError::MissingBeaconBlock(block_root)),
        Err(e) => Err(BeaconChainError::DBError(e)),
    }
}

/// Puts a payload and its requests into the envelope of a block, by the store's answer for the
/// block. The envelope's block roots and builder are those of the block.
pub fn envelope_of_block<P, R, S>(
    block_root: Hash256,
    payload: P,
    execution_requests: R,
    stored: Result<Option<DatabaseBlock>, StoreError>,
    infinity_signature: Result<S, String>,
) -> (result: Result<SignedExecutionPayloadEnvelope<P, R, S>, BeaconChainError>)
    ensures
        result == envelope_around(
            block_root,
            payload,
            execution_requests,
            stored,
            infinity_signature,
        ),
        // An envelope is that of the bid of the full block that the store has.
        result is Ok ==> {
            let message = result->Ok_0.message;
            &&& stored matches Ok(Some(DatabaseBlock::Full(Ok(bid))))
            &&& message.builder_index == bid.builder_index
            &&& message.parent_beacon_block_root == bid.parent_block_root
            &&& message.beacon_block_root == block_root
            &&& message.payload == payload
            &&& message.execution_requests == execution_requests
            &&& infinity_signature == Ok::<S, String>(result->Ok_0.signature)
        },
        // There is one wherever there are such a bid and a signature.
        result is Ok <==> {
            &&& stored matches Ok(Some(DatabaseBlock::Full(Ok(_))))
            &&& infinity_signature is Ok
        },
        // Else the store decides the error, then the bid, then the signature.
        stored is Err ==> result->Err_0 == BeaconChainError::DBError(stored->Err_0),
        stored is Ok && (stored->Ok_0 is None || stored->Ok_0->0 is Blinded) ==> result->Err_0
            == BeaconChainError::MissingBeaconBlock(block_root),
        stored is Ok && stored->Ok_0 is Some && stored->Ok_0->0 is Full ==> {
            let bid = stored->Ok_0->0->Full_0;
            &&& bid is Err ==> result->Err_0 == BeaconChainError::BeaconStateError(bid->Err_0)
            &&& bid is Ok && infinity_signature is Err ==> result->Err_0
                == BeaconChainError::UnableToBuildPayloadColumnSidecar(
                BuildFailure::InfinitySignature(infinity_signature->Err_0),
            )
        },
{
    let body = match stored {
        Ok(Some(DatabaseBlock::Full(body))) => body,
        Ok(Some(DatabaseBlock::Blinded)) => {
            return Err(BeaconChainError::MissingBeaconBlock(block_root));
        },
        Ok(None) => return Err(BeaconChainError::MissingBeaconBlock(block_root)),
        Err(e) => return Err(BeaconChainError::DBError(e)),
    };
    let bid = match body {
        Ok(bid) => bid,
        Err(reason) => return Err(BeaconChainError::BeaconStateError(reason)),
    };
    let message = ExecutionPayloadEnvelope {
        payload,
        execution_requests,
        builder_index: bid.builder_index,
        beacon_block_root: block_root,
        parent_beacon_block_root: bid.parent_block_root,
    };
    match infinity_signature {
        Ok(signature) => Ok(SignedExecutionPayloadEnvelope { message, signature }),
        Err(reason) => Err(
            BeaconChainError::UnableToBuildPayloadColumnSidecar(
                BuildFailure::InfinitySignature(reason),
            ),
        ),
    }
}

/// Whether rebuilding the envelope of a block returned what its columns, the store's answer for the
/// block and the infinity signature call for, in this order.
pub open spec fn rebuilds_envelope<
    P,
    R,
    S,
    F: Fn(Vec<u8>) -> Result<P, ssz::DecodeError>,
    G: Fn(Vec<u8>) -> Result<R, ssz::DecodeError>,
>(
    block_root: Hash256,
    columns: Seq<SidecarView>,
    decode_payload: F,
    decode_requests: G,
    stored: Result<Option<DatabaseBlock>, StoreError>,
    infinity_signature: Result<S, String>,
    result: Result<SignedExecutionPayloadEnvelope<P, R, S>, BeaconChainError>,
) -> bool {
    exists|data: Result<PayloadColumnData<P, R>, PayloadColumnError>|
        {
            &&& #[trigger] data_decoded(
                decoded_columns(columns),
                decode_payload,
                decode_requests,
                data,
            )
            &&& result == (match data {
                Err(e) => Err(
                    BeaconChainError::UnableToBuildPayloadColumnSidecar(
                        BuildFailure::PayloadColumns(e),
                    ),
                ),
                Ok(data) => envelope_around(
                    block_root,
                    data.payload,
                    data.execution_requests,
                    stored,
                    infinity_signature,
                ),
            })
        }
}

impl<E: EthSpec> BeaconChain<E> {
    /// Rebuilds the execution payload envelope of a block from a complete set of recovered payload
    /// columns, what the store answered for the block, and the infinity signature.
    ///
    /// The payload and the requests are decoded with `decode_payload` and `decode_requests`. The
    /// envelope's block roots and builder are those of the block, not of the columns. Its signature
    /// is the infinity signature, which stands for none: each column was verified against the
    /// commitment in the signed bid.
    pub fn reconstruct_envelope_from_payload_columns<
        P,
        R,
        S,
        F: Fn(Vec<u8>) -> Result<P, ssz::DecodeError>,
        G: Fn(Vec<u8>) -> Result<R, ssz::DecodeError>,
    >(
        block_root: Hash256,
        columns: &Vec<PayloadColumnSidecar>,
        decode_payload: F,
        decode_requests: G,
        stored: Result<Option<DatabaseBlock>, StoreError>,
        infinity_signature: Result<S, String>,
    ) -> (result: Result<SignedExecutionPayloadEnvelope<P, R, S>, BeaconChainError>)
        requires
            forall|bytes: Vec<u8>| call_requires(decode_payload, (bytes,)),
            forall|bytes: Vec<u8>| call_requires(decode_requests, (bytes,)),
        ensures
            rebuilds_envelope(
                block_root,
                sidecars_of(columns@),
                decode_payload,
                decode_requests,
                stored,
                infinity_signature,
                result,
            ),
            // An envelope is that of the bid of the full block that the store has, around what the
            // columns decode to.
            result is Ok ==> {
                let message = result->Ok_0.message;
                &&& stored matches Ok(Some(DatabaseBlock::Full(Ok(bid))))
                &&& message.builder_index == bid.builder_index
                &&& message.parent_beacon_block_root == bid.parent_block_root
                &&& message.beacon_block_root == block_root
                &&& infinity_signature == Ok::<S, String>(result->Ok_0.signature)
                &&& decoded_columns(sidecars_of(columns@)) is Ok
                &&& field_decoded(
                    decode_payload,
                    decoded_columns(sidecars_of(columns@))->Ok_0.payload,
                    Ok(message.payload),
                )
                &&& field_decoded(
                    decode_requests,
                    decoded_columns(sidecars_of(columns@))->Ok_0.execution_requests,
                    Ok(message.execution_requests),
                )
            },
    {
        let decoded = payload_columns_to_payload_data::<E, P, R, F, G>(
            columns,
            decode_payload,
            decode_requests,
        );
        let data = match decoded {
            Ok(data) => data,
            Err(e) => {
                return Err(
                    BeaconChainError::UnableToBuildPayloadColumnSidecar(
                        BuildFailure::PayloadColumns(e),
                    ),
                );
            },
        };
        envelope_of_block(
            block_root,
            data.payload,
            data.execution_requests,
            stored,
            infinity_signature,
        )
    }
}

/// Looking a block up keeps every held column authenticated.
pub proof fn law_use_keeps_columns_authenticated(view: AssemblerView, block_root: Hash256)
    requires
        view.wf(),
        authenticated(view),
    ensures
        authenticated(view.touched(block_root)),
{
    assert forall|other: Hash256| #[trigger] view.touched(block_root).lookup(other)
        == view.lookup(other) by {
        law_lookup_survives_use(view, block_root, other);
    }
}

/// Entering a new block keeps every held column authenticated.
pub proof fn law_init_keeps_columns_authenticated(
    view: AssemblerView,
    block_root: Hash256,
    slot: Slot,
    loaded: Hash256,
)
    requires
        view.wf(),
        view.lookup(block_root) is None,
        authenticated(view),
    ensures
        authenticated(view.after_init(block_root, slot, loaded)),
{
    let after = view.after_init(block_root, slot, loaded);
    law_new_block_is_entered(view, block_root, slot, loaded);
    assert forall|other: Hash256| other != block_root && after.lookup(other) is Some implies
        #[trigger] after.lookup(other) == view.lookup(other) by {
        law_init_pushes_out_the_least_recently_used(view, block_root, slot, loaded, other);
    }
}

/// Judging a column by the root of its block keeps every held column authenticated: what is not
/// proved to lie under the root is not stored.
pub proof fn law_verdict_keeps_columns_authenticated(
    view: AssemblerView,
    sidecar: SidecarView,
    payload_columns_root: Hash256,
)
    requires
        view.wf(),
        authenticated(view),
        sidecar.index < CELLS_PER_EXT_BLOB,
        view.lookup(sidecar.beacon_block_root) is Some ==> view.lookup(
            sidecar.beacon_block_root,
        )->0.payload_columns_root == payload_columns_root,
    ensures
        authenticated(after_verdict(view, sidecar, payload_columns_root)),
{
    let block_root = sidecar.beacon_block_root;
    let after = after_verdict(view, sidecar, payload_columns_root);
    if sidecar.included_under(payload_columns_root) {
        law_insert_adds_the_column(view, block_root, sidecar);
        assert forall|other: Hash256| other != block_root implies #[trigger] after.lookup(other)
            == view.lookup(other) by {
            law_other_blocks_unchanged(view, block_root, sidecar, other);
        }
        assert forall|root: Hash256, index: ColumnIndex|
            after.lookup(root) is Some && #[trigger] after.lookup(root)->0.columns.contains_key(
                index,
            ) implies {
            let column = after.lookup(root)->0.columns[index];
            &&& column.beacon_block_root == root
            &&& column.index == index
            &&& index < CELLS_PER_EXT_BLOB
            &&& column.included_under(after.lookup(root)->0.payload_columns_root)
        } by {
            if root == block_root && index == sidecar.index && view.insert_outcome(
                block_root,
                sidecar,
            ) is Stored {
            } else {
                assert(view.lookup(root)->0.columns.contains_key(index));
            }
        }
    }
}

/// The first checks of a column, one by one: what speaks against it is the first of an index out of
/// range, another subnet, a clock that cannot be read, a slot of the future, a slot that is not
/// after the first one of the finalized epoch, a block that is not known, and another slot than the
/// block's. Nothing else does.
pub proof fn law_first_checks(
    sidecar: SidecarView,
    subnet_id: u64,
    status: ChainStatus,
    slots_per_epoch: u64,
)
    ensures
        ({
            let verdict = precheck(sidecar, subnet_id, status, slots_per_epoch);
            let own = sidecar.index < 128 && sidecar.index == subnet_id;
            let clock = status.latest_permissible_slot is Some;
            let arrived = clock && sidecar.slot.0 <= (status.latest_permissible_slot->0).0;
            let open = sidecar.slot.0 > status.finalized_epoch.0 * slots_per_epoch;
            &&& verdict is None <==> own && arrived && open && status.block_slot == Some(
                sidecar.slot,
            )
            &&& verdict is None <==> is_acceptable(sidecar, subnet_id, status, slots_per_epoch)
            &&& sidecar.index >= 128 ==> verdict == Some(
                GossipPayloadColumnError::InvalidColumnIndex(sidecar.index),
            )
            &&& sidecar.index < 128 && sidecar.index != subnet_id ==> verdict == Some(
                GossipPayloadColumnError::InvalidSubnetId {
                    received: subnet_id,
                    expected: sidecar.index,
                },
            )
            &&& own && !clock ==> {
                &&& verdict matches Some(GossipPayloadColumnError::BeaconChainError(e))
                &&& *e == BeaconChainError::UnableToReadSlot
            }
            &&& own && clock && !arrived ==> verdict == Some(
                GossipPayloadColumnError::FutureSlot {
                    message_slot: sidecar.slot,
                    latest_permissible_slot: status.latest_permissible_slot->0,
                },
            )
            &&& own && arrived && !open ==> {
                &&& verdict matches Some(
                    GossipPayloadColumnError::PastFinalizedSlot { column_slot, finalized_slot },
                )
                &&& column_slot == sidecar.slot
                &&& sidecar.slot.0 <= finalized_slot.0 <= status.finalized_epoch.0
                    * slots_per_epoch
                &&& finalized_slot.0 == status.finalized_epoch.0 * slots_per_epoch
                    || finalized_slot.0 == u64::MAX
            }
            &&& own && arrived && open && status.block_slot is None ==> verdict == Some(
                GossipPayloadColumnError::UnknownBeaconBlock(sidecar.beacon_block_root),
            )
            &&& own && arrived && open && status.block_slot is Some && status.block_slot->0
                != sidecar.slot ==> verdict == Some(
                GossipPayloadColumnError::SlotMismatch {
                    column_slot: sidecar.slot,
                    block_slot: status.block_slot->0,
                },
            )
        }),
{
}

/// A column that passes the first checks still does as time goes on, as long as its slot is not
/// finalized.
pub proof fn law_time_does_not_speak_against_a_column(
    sidecar: SidecarView,
    subnet_id: u64,
    status: ChainStatus,
    later: Slot,
    slots_per_epoch: u64,
)
    requires
        precheck(sidecar, subnet_id, status, slots_per_epoch) is None,
        later.0 >= (status.latest_permissible_slot->0).0,
    ensures
        precheck(
            sidecar,
            subnet_id,
            ChainStatus { latest_permissible_slot: Some(later), ..status },
            slots_per_epoch,
        ) is None,
{
}

/// Nor does it matter how long ago the last epoch was finalized.
pub proof fn law_late_finality_does_not_speak_against_a_column(
    sidecar: SidecarView,
    subnet_id: u64,
    status: ChainStatus,
    earlier: Epoch,
    slots_per_epoch: u64,
)
    requires
        precheck(sidecar, subnet_id, status, slots_per_epoch) is None,
        earlier.0 <= status.finalized_epoch.0,
    ensures
        precheck(
            sidecar,
            subnet_id,
            ChainStatus { finalized_epoch: earlier, ..status },
            slots_per_epoch,
        ) is None,
{
    assert(earlier.0 * slots_per_epoch <= status.finalized_epoch.0 * slots_per_epoch)
        by (nonlinear_arith)
        requires
            earlier.0 <= status.finalized_epoch.0,
    ;
}

/// A column is accepted exactly where it is included under the root, its block is held and was not
/// recovered, and no column of its index is held. It is then held for its block, together with what
/// was held before; else nothing changes for any block.
pub proof fn law_included_new_columns_are_accepted(
    view: AssemblerView,
    sidecar: SidecarView,
    payload_columns_root: Hash256,
    other: Hash256,
)
    requires
        view.wf(),
        other != sidecar.beacon_block_root,
    ensures
        ({
            let block_root = sidecar.beacon_block_root;
            let held = view.lookup(block_root);
            let verdict = verdict(view, sidecar, payload_columns_root);
            let after = after_verdict(view, sidecar, payload_columns_root);
            let fresh = held is Some && !held->0.reconstructed && !held->0.columns.contains_key(
                sidecar.index,
            );
            let included = sidecar.included_under(payload_columns_root);
            &&& verdict is Ok <==> included && fresh
            &&& verdict is Ok ==> after.lookup(block_root) == Some(
                AssemblyView {
                    columns: held->0.columns.insert(sidecar.index, sidecar),
                    ..held->0
                },
            )
            &&& verdict is Err ==> after.lookup(block_root) == held
            &&& after.lookup(other) == view.lookup(other)
            &&& !included ==> after == view && verdict == Err::<usize, GossipPayloadColumnError>(
                GossipPayloadColumnError::InvalidInclusionProof,
            )
            &&& included && held is Some && held->0.reconstructed ==> verdict == Err::<
                usize,
                GossipPayloadColumnError,
            >(GossipPayloadColumnError::AlreadyReconstructed { block_root })
            &&& included && !fresh && !(held is Some && held->0.reconstructed) ==> verdict == Err::<
                usize,
                GossipPayloadColumnError,
            >(GossipPayloadColumnError::PriorKnown { block_root, index: sidecar.index })
        }),
{
    law_insert_adds_the_column(view, sidecar.beacon_block_root, sidecar);
    law_other_blocks_unchanged(view, sidecar.beacon_block_root, sidecar, other);
}

/// The envelope of a full block with a bid names the block, and the builder and parent of the bid,
/// and holds the payload, the requests and the signature as they are.
pub proof fn law_an_envelope_is_that_of_its_bid<P, R, S>(
    block_root: Hash256,
    payload: P,
    execution_requests: R,
    bid: ExecutionPayloadBid,
    signature: S,
)
    ensures
        ({
            let stored = Ok::<Option<DatabaseBlock>, StoreError>(
                Some(DatabaseBlock::Full(Ok(bid))),
            );
            let result = envelope_around(
                block_root,
                payload,
                execution_requests,
                stored,
                Ok(signature),
            );
            &&& result is Ok
            &&& result->Ok_0.message.builder_index == bid.builder_index
            &&& result->Ok_0.message.parent_beacon_block_root == bid.parent_block_root
            &&& result->Ok_0.message.beacon_block_root == block_root
            &&& result->Ok_0.message.payload == payload
            &&& result->Ok_0.message.execution_requests == execution_requests
            &&& result->Ok_0.signature == signature
        }),
{
}

/// Columns that do not decode are refused with their own error, whatever the store and the
/// signature answered.
pub proof fn law_columns_are_judged_before_the_block<
    P,
    R,
    S,
    F: Fn(Vec<u8>) -> Result<P, ssz::DecodeError>,
    G: Fn(Vec<u8>) -> Result<R, ssz::DecodeError>,
>(
    block_root: Hash256,
    columns: Seq<SidecarView>,
    decode_payload: F,
    decode_requests: G,
    stored: Result<Option<DatabaseBlock>, StoreError>,
    infinity_signature: Result<S, String>,
    result: Result<SignedExecutionPayloadEnvelope<P, R, S>, BeaconChainError>,
)
    requires
        decoded_columns(columns) is Err,
        rebuilds_envelope(
            block_root,
            columns,
            decode_payload,
            decode_requests,
            stored,
            infinity_signature,
            result,
        ),
    ensures
        ({
            &&& result matches Err(
                BeaconChainError::UnableToBuildPayloadColumnSidecar(
                    BuildFailure::PayloadColumns(e),
                ),
            )
            &&& e@ == decoded_columns(columns)->Err_0
        }),
{
}

/// The envelope of a full block with a bid is rebuilt wherever its columns and their fields decode
/// and there is a signature.
pub proof fn law_decodable_columns_rebuild_the_envelope<
    P,
    R,
    S,
    F: Fn(Vec<u8>) -> Result<P, ssz::DecodeError>,
    G: Fn(Vec<u8>) -> Result<R, ssz::DecodeError>,
>(
    block_root: Hash256,
    columns: Seq<SidecarView>,
    decode_payload: F,
    decode_requests: G,
    bid: ExecutionPayloadBid,
    signature: S,
    decoded: PayloadColumnData<P, R>,
    result: Result<SignedExecutionPayloadEnvelope<P, R, S>, BeaconChainError>,
)
    requires
        decoded_columns(columns) is Ok,
        decodes_to(decode_payload, decoded_columns(columns)->Ok_0.payload, decoded.payload),
        decodes_to(
            decode_requests,
            decoded_columns(columns)->Ok_0.execution_requests,
            decoded.execution_requests,
        ),
        rebuilds_envelope(
            block_root,
            columns,
            decode_payload,
            decode_requests,
            Ok(Some(DatabaseBlock::Full(Ok(bid)))),
            Ok(signature),
            result,
        ),
    ensures
        result is Ok,
        result->Ok_0.message.payload == decoded.payload,
        result->Ok_0.message.execution_requests == decoded.execution_requests,
        result->Ok_0.message.builder_index == bid.builder_index,
        result->Ok_0.message.beacon_block_root == block_root,
        result->Ok_0.message.parent_beacon_block_root == bid.parent_block_root,
        result->Ok_0.signature == signature,
{
    let data = decoded_columns(columns)->Ok_0;
    let fields = choose|fields: Result<PayloadColumnData<P, R>, PayloadColumnError>|
        {
            &&& #[trigger] data_decoded(
                decoded_columns(columns),
                decode_payload,
                decode_requests,
                fields,
            )
            &&& result == (match fields {
                Err(e) => Err(
                    BeaconChainError::UnableToBuildPayloadColumnSidecar(
                        BuildFailure::PayloadColumns(e),
                    ),
                ),
                Ok(data) => envelope_around(
                    block_root,
                    data.payload,
                    data.execution_requests,
                    Ok(Some(DatabaseBlock::Full(Ok(bid)))),
                    Ok(signature),
                ),
            })
        };
    law_unpacked_fields_decode(data, decode_payload, decode_requests, decoded, fields);
}

/// A column that came over its own subnet, for the slot of its block, which is neither of the
/// future nor finalized, passes the first checks, however far behind finality is; no other does.
pub proof fn law_acceptable_columns_pass<E: EthSpec>(
    sidecar: PayloadColumnSidecar,
    subnet_id: PayloadColumnSubnetId,
    status: ChainStatus,
    result: Result<(), GossipPayloadColumnError>,
)
    requires
        call_ensures(check_before_commitment::<E>, (&sidecar, subnet_id, status), result),
    ensures
        result is Ok <==> {
            &&& sidecar.index < 128
            &&& sidecar.index == subnet_id@
            &&& status.latest_permissible_slot is Some
            &&& sidecar.slot.0 <= (status.latest_permissible_slot->0).0
            &&& sidecar.slot.0 > status.finalized_epoch.0 * E::spec_slots_per_epoch()
            &&& status.block_slot == Some(sidecar.slot)
        },
{
}

/// The envelopes of two bids agree in builder and parent exactly where the bids do.
pub proof fn law_envelopes_tell_bids_apart<P, R, S>(
    block_root: Hash256,
    payload: P,
    execution_requests: R,
    first: ExecutionPayloadBid,
    second: ExecutionPayloadBid,
    signature: S,
    envelope: SignedExecutionPayloadEnvelope<P, R, S>,
    other: SignedExecutionPayloadEnvelope<P, R, S>,
)
    requires
        call_ensures(
            envelope_of_block::<P, R, S>,
            (
                block_root,
                payload,
                execution_requests,
                Ok(Some(DatabaseBlock::Full(Ok(first)))),
                Ok(signature),
            ),
            Ok(envelope),
        ),
        call_ensures(
            envelope_of_block::<P, R, S>,
            (
                block_root,
                payload,
                execution_requests,
                Ok(Some(DatabaseBlock::Full(Ok(second)))),
                Ok(signature),
            ),
            Ok(other),
        ),
    ensures
        envelope.message.builder_index == other.message.builder_index <==> first.builder_index
            == second.builder_index,
        envelope.message.parent_beacon_block_root == other.message.parent_beacon_block_root
            <==> first.parent_block_root == second.parent_block_root,
        envelope.message.builder_index == first.builder_index,
        envelope.message.parent_beacon_block_root == first.parent_block_root,
        envelope.message.beacon_block_root == block_root,
{
}

} // verus!
