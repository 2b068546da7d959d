use payload_columns::containers::PayloadColumn;
use payload_columns::error::PayloadColumnError;
use payload_columns::eth_spec::MinimalEthSpec;
use payload_columns::payload_codec::PayloadColumnData;
use payload_columns::payload_column_assembler::PayloadColumnAssembler;
use payload_columns::payload_column_sidecar::PayloadColumnSidecar;
use payload_columns::payload_column_subnet_id::{
    all_payload_column_sidecar_subnets, PayloadColumnSubnetId,
};
use payload_columns::payload_column_utils::{
    build_payload_column_sidecars, build_sidecars_from_columns, recover_payload_columns,
};
use payload_columns::payload_column_verification::{
    envelope_of_block, load_payload_columns_root, BeaconChain, BeaconChainError, BuildFailure,
    ChainStatus, DatabaseBlock, ExecutionPayloadBid, GossipPayloadColumnError, StoreError,
};
use payload_columns::primitives::{Epoch, Hash256, Slot};
use rust_eth_kzg::DASContext;
use ssz::{Decode, DecodeError};
use std::sync::Arc;

type E = MinimalEthSpec;

fn chain() -> BeaconChain<E> {
    BeaconChain { payload_column_assembler: PayloadColumnAssembler::new(4) }
}

/// Sidecars of block `[7; 32]` at slot 20, with the root of their columns.
fn sidecars() -> (Vec<PayloadColumnSidecar>, Hash256) {
    let columns = (0..128u8)
        .map(|i| PayloadColumn::new(vec![vec![i; 2048]]).expect("column"))
        .collect();
    build_sidecars_from_columns(columns, [7; 32], Slot::new(20)).expect("should build")
}

fn status() -> ChainStatus {
    ChainStatus {
        latest_permissible_slot: Some(Slot::new(20)),
        finalized_epoch: Epoch::new(2),
        block_slot: Some(Slot::new(20)),
    }
}

fn verify(
    chain: &mut BeaconChain<E>,
    sidecar: &PayloadColumnSidecar,
    subnet: u64,
    status: ChainStatus,
    root: Hash256,
) -> Result<usize, GossipPayloadColumnError> {
    chain
        .verify_payload_column_for_gossip(
            Arc::new(sidecar.clone()),
            PayloadColumnSubnetId::new(subnet),
            status,
            || Ok(root),
        )
        .map(|verified| verified.columns_held)
}

#[test]
fn valid_columns_are_stored() {
    let mut chain = chain();
    let (sidecars, root) = sidecars();
    let verified = chain
        .verify_payload_column_for_gossip(
            Arc::new(sidecars[3].clone()),
            PayloadColumnSubnetId::from_column_index(3),
            status(),
            || Ok(root),
        )
        .expect("should verify");
    assert_eq!(verified.index(), 3);
    assert_eq!(verified.block_root(), [7; 32]);
    assert_eq!(verified.slot(), Slot::new(20));
    assert_eq!(verified.columns_held, 1);
    assert_eq!(*verified.sidecar, sidecars[3]);
    assert_eq!(verify(&mut chain, &sidecars[9], 9, status(), root).expect("should verify"), 2);
    assert_eq!(chain.payload_column_assembler.held_indices([7; 32]).len(), 2);
}

#[test]
fn index_out_of_range_is_refused() {
    let (sidecars, root) = sidecars();
    let mut sidecar = sidecars[3].clone();
    sidecar.index = 128;
    let e = verify(&mut chain(), &sidecar, 128, status(), root).expect_err("should refuse");
    assert!(matches!(e, GossipPayloadColumnError::InvalidColumnIndex(128)));
    assert!(e.penalize_peer());
}

#[test]
fn another_subnet_is_refused() {
    let (sidecars, root) = sidecars();
    let e = verify(&mut chain(), &sidecars[3], 4, status(), root).expect_err("should refuse");
    assert!(matches!(
        e,
        GossipPayloadColumnError::InvalidSubnetId { received: 4, expected: 3 }
    ));
    assert!(e.penalize_peer());
}

#[test]
fn a_clock_that_cannot_be_read_is_no_peer_fault() {
    let (sidecars, root) = sidecars();
    let status = ChainStatus { latest_permissible_slot: None, ..status() };
    let e = verify(&mut chain(), &sidecars[3], 3, status, root).expect_err("should refuse");
    assert!(!e.penalize_peer());
    match e {
        GossipPayloadColumnError::BeaconChainError(e) => {
            assert!(matches!(*e, BeaconChainError::UnableToReadSlot))
        }
        other => panic!("{:?}", other),
    }
}

#[test]
fn a_future_slot_is_refused() {
    let (sidecars, root) = sidecars();
    let status = ChainStatus { latest_permissible_slot: Some(Slot::new(19)), ..status() };
    let e = verify(&mut chain(), &sidecars[3], 3, status, root).expect_err("should refuse");
    assert!(matches!(
        e,
        GossipPayloadColumnError::FutureSlot {
            message_slot: Slot(20),
            latest_permissible_slot: Slot(19)
        }
    ));
    assert!(e.penalize_peer());
}

#[test]
fn a_finalized_slot_is_useless() {
    let (mut sidecars, root) = sidecars();
    // An epoch has 8 slots here, so that epoch 2 starts at slot 16.
    sidecars[3].slot = Slot::new(16);
    let status = ChainStatus { block_slot: Some(Slot::new(16)), ..status() };
    let e = verify(&mut chain(), &sidecars[3], 3, status, root).expect_err("should refuse");
    assert!(matches!(
        e,
        GossipPayloadColumnError::PastFinalizedSlot {
            column_slot: Slot(16),
            finalized_slot: Slot(16)
        }
    ));
    assert!(!e.penalize_peer());
    sidecars[3].slot = Slot::new(17);
    let status = ChainStatus { block_slot: Some(Slot::new(17)), ..status };
    assert_eq!(verify(&mut chain(), &sidecars[3], 3, status, root).expect("should verify"), 1);
}

#[test]
fn an_unknown_block_is_no_peer_fault() {
    let (sidecars, root) = sidecars();
    let status = ChainStatus { block_slot: None, ..status() };
    let e = verify(&mut chain(), &sidecars[3], 3, status, root).expect_err("should refuse");
    assert!(matches!(e, GossipPayloadColumnError::UnknownBeaconBlock(root) if root == [7; 32]));
    assert!(!e.penalize_peer());
}

#[test]
fn another_slot_than_the_blocks_is_refused() {
    let (sidecars, root) = sidecars();
    let status = ChainStatus { block_slot: Some(Slot::new(21)), ..status() };
    let e = verify(&mut chain(), &sidecars[3], 3, status, root).expect_err("should refuse");
    assert!(matches!(
        e,
        GossipPayloadColumnError::SlotMismatch { column_slot: Slot(20), block_slot: Slot(21) }
    ));
    assert!(e.penalize_peer());
}

#[test]
fn a_column_of_another_commitment_is_refused_and_not_stored() {
    let mut chain = chain();
    let (sidecars, root) = sidecars();
    let e = verify(&mut chain, &sidecars[3], 3, status(), [1; 32]).expect_err("should refuse");
    assert!(matches!(e, GossipPayloadColumnError::InvalidInclusionProof));
    assert!(e.penalize_peer());
    assert!(chain.payload_column_assembler.held_indices([7; 32]).is_empty());
    // The root was cached with the first column, and is not loaded again.
    let e = verify(&mut chain, &sidecars[3], 3, status(), root).expect_err("should refuse");
    assert!(matches!(e, GossipPayloadColumnError::InvalidInclusionProof));
}

#[test]
fn duplicates_are_no_peer_fault() {
    let mut chain = chain();
    let (sidecars, root) = sidecars();
    verify(&mut chain, &sidecars[3], 3, status(), root).expect("should verify");
    let e = verify(&mut chain, &sidecars[3], 3, status(), root).expect_err("should refuse");
    assert!(matches!(
        e,
        GossipPayloadColumnError::PriorKnown { block_root, index: 3 } if block_root == [7; 32]
    ));
    assert!(!e.penalize_peer());
}

#[test]
fn columns_of_a_recovered_payload_are_redundant() {
    let mut chain = chain();
    let (sidecars, root) = sidecars();
    for index in 0..64usize {
        verify(&mut chain, &sidecars[index], index as u64, status(), root).expect("should verify");
    }
    let taken = chain.payload_column_assembler.take_columns_for_recovery([7; 32]);
    assert_eq!(taken.expect("should recover").len(), 64);
    let e = verify(&mut chain, &sidecars[64], 64, status(), root).expect_err("should refuse");
    assert!(matches!(
        e,
        GossipPayloadColumnError::AlreadyReconstructed { block_root } if block_root == [7; 32]
    ));
    assert!(!e.penalize_peer());
}

#[test]
fn a_failed_load_is_reported() {
    let mut chain = chain();
    let (sidecars, _) = sidecars();
    let result = chain.verify_payload_column_for_gossip(
        Arc::new(sidecars[3].clone()),
        PayloadColumnSubnetId::new(3),
        status(),
        || Err(GossipPayloadColumnError::NotGloasBlock([7; 32])),
    );
    let e = result.expect_err("should refuse");
    assert!(matches!(e, GossipPayloadColumnError::NotGloasBlock(_)));
    assert!(e.penalize_peer());
}

#[test]
fn nothing_is_loaded_for_a_column_that_fails_the_first_checks() {
    let mut chain = chain();
    let (sidecars, _) = sidecars();
    let result = chain.verify_payload_column_for_gossip(
        Arc::new(sidecars[3].clone()),
        PayloadColumnSubnetId::new(4),
        status(),
        || panic!("load should not be called"),
    );
    assert!(result.is_err());
}

fn bid() -> ExecutionPayloadBid {
    ExecutionPayloadBid {
        payload_columns_root: [4; 32],
        builder_index: 17,
        parent_block_root: [6; 32],
    }
}

#[test]
fn the_root_is_read_out_of_the_bid() {
    let full = Ok(Some(DatabaseBlock::Full(Ok(bid()))));
    assert_eq!(load_payload_columns_root([7; 32], full).expect("should load"), [4; 32]);

    let before = Ok(Some(DatabaseBlock::Full(Err("no bid".to_string()))));
    assert!(matches!(
        load_payload_columns_root([7; 32], before),
        Err(GossipPayloadColumnError::NotGloasBlock(root)) if root == [7; 32]
    ));
    assert!(matches!(
        load_payload_columns_root([7; 32], Ok(Some(DatabaseBlock::Blinded))),
        Err(GossipPayloadColumnError::UnknownBeaconBlock(root)) if root == [7; 32]
    ));
    assert!(matches!(
        load_payload_columns_root([7; 32], Ok(None)),
        Err(GossipPayloadColumnError::UnknownBeaconBlock(root)) if root == [7; 32]
    ));
    match load_payload_columns_root([7; 32], Err(StoreError("broken".to_string()))) {
        Err(GossipPayloadColumnError::BeaconChainError(e)) => match *e {
            BeaconChainError::DBError(StoreError(text)) => assert_eq!(text, "broken"),
            other => panic!("{:?}", other),
        },
        other => panic!("{:?}", other),
    }
}

/// Takes a field as it is encoded.
fn encoded(bytes: Vec<u8>) -> Result<Vec<u8>, DecodeError> {
    Vec::<u8>::from_ssz_bytes(&bytes)
}

/// Takes a field that is a number.
fn number(bytes: Vec<u8>) -> Result<u16, DecodeError> {
    u16::from_ssz_bytes(&bytes)
}

#[test]
fn an_envelope_is_rebuilt_from_recovered_columns() {
    let kzg = DASContext::default();
    let data = PayloadColumnData {
        payload: vec![1, 2, 3],
        execution_requests: vec![4, 5],
    };
    let (sidecars, root) =
        build_payload_column_sidecars::<E>(&data, [7; 32], Slot::new(20), &kzg)
            .expect("should build sidecars");

    // Half of the columns arrive, are verified, and recover the rest.
    let mut chain = chain();
    for sidecar in sidecars.iter().filter(|s| s.index % 2 == 1) {
        verify(&mut chain, sidecar, sidecar.index, status(), root).expect("should verify");
    }
    let taken = chain
        .payload_column_assembler
        .take_columns_for_recovery([7; 32])
        .expect("should recover");
    let recovered = recover_payload_columns::<E>(&taken, &kzg).expect("should recover");
    assert_eq!(recovered, sidecars);

    let rebuild = |stored| {
        BeaconChain::<E>::reconstruct_envelope_from_payload_columns(
            [7; 32],
            &recovered,
            encoded,
            encoded,
            stored,
            Ok([0xc0; 96]),
        )
    };
    let envelope = rebuild(Ok(Some(DatabaseBlock::Full(Ok(bid()))))).expect("should rebuild");
    assert_eq!(envelope.message.payload, vec![1, 2, 3]);
    assert_eq!(envelope.message.execution_requests, vec![4, 5]);
    assert_eq!(envelope.message.builder_index, 17);
    assert_eq!(envelope.message.beacon_block_root, [7; 32]);
    assert_eq!(envelope.message.parent_beacon_block_root, [6; 32]);
    assert_eq!(envelope.signature, [0xc0; 96]);

    assert!(matches!(
        rebuild(Ok(Some(DatabaseBlock::Blinded))),
        Err(BeaconChainError::MissingBeaconBlock(root)) if root == [7; 32]
    ));
    assert!(matches!(rebuild(Ok(None)), Err(BeaconChainError::MissingBeaconBlock(_))));
    assert!(matches!(
        rebuild(Ok(Some(DatabaseBlock::Full(Err("early".to_string()))))),
        Err(BeaconChainError::BeaconStateError(reason)) if reason == "early"
    ));
    assert!(matches!(
        rebuild(Err(StoreError("broken".to_string()))),
        Err(BeaconChainError::DBError(StoreError(text))) if text == "broken"
    ));
}

#[test]
fn an_envelope_holds_decoded_fields() {
    let data = PayloadColumnData { payload: vec![1, 2, 3], execution_requests: vec![4, 1] };
    let (sidecars, _) =
        build_payload_column_sidecars::<E>(&data, [7; 32], Slot::new(20), &DASContext::default())
            .expect("should build sidecars");
    let stored = Ok(Some(DatabaseBlock::Full(Ok(bid()))));
    let envelope = BeaconChain::<E>::reconstruct_envelope_from_payload_columns(
        [7; 32],
        &sidecars,
        encoded,
        number,
        stored,
        Ok(0u8),
    )
    .expect("should rebuild");
    assert_eq!(envelope.message.payload, vec![1, 2, 3]);
    assert_eq!(envelope.message.execution_requests, 260);
    // A payload that does not decode is refused before the block is looked at.
    assert!(matches!(
        BeaconChain::<E>::reconstruct_envelope_from_payload_columns(
            [7; 32],
            &sidecars,
            number,
            number,
            Ok(None),
            Ok(0u8),
        ),
        Err(BeaconChainError::UnableToBuildPayloadColumnSidecar(BuildFailure::PayloadColumns(
            PayloadColumnError::Ssz(DecodeError::InvalidByteLength { len: 3, expected: 2 })
        )))
    ));
}

#[test]
fn an_envelope_needs_its_signature() {
    let signature = || Err::<u8, String>("no signature".to_string());
    let stored = Ok(Some(DatabaseBlock::Full(Ok(bid()))));
    assert!(matches!(
        envelope_of_block([7; 32], 1u8, 2u8, stored, signature()),
        Err(BeaconChainError::UnableToBuildPayloadColumnSidecar(
            BuildFailure::InfinitySignature(reason)
        )) if reason == "no signature"
    ));
    // The block is judged first.
    let no_bid = Ok(Some(DatabaseBlock::Full(Err("early".to_string()))));
    assert!(matches!(
        envelope_of_block([7; 32], 1u8, 2u8, no_bid, signature()),
        Err(BeaconChainError::BeaconStateError(reason)) if reason == "early"
    ));
    assert!(matches!(
        envelope_of_block([7; 32], 1u8, 2u8, Ok(None), signature()),
        Err(BeaconChainError::MissingBeaconBlock(_))
    ));
}

#[test]
fn an_envelope_needs_all_columns() {
    // The columns are decoded before anything else is looked at.
    assert!(matches!(
        BeaconChain::<E>::reconstruct_envelope_from_payload_columns(
            [7; 32],
            &Vec::new(),
            encoded,
            encoded,
            Err(StoreError("broken".to_string())),
            Err::<u8, String>("no signature".to_string()),
        ),
        Err(BeaconChainError::UnableToBuildPayloadColumnSidecar(BuildFailure::PayloadColumns(
            PayloadColumnError::InsufficientColumns { supplied: 0, required: 128 }
        )))
    ));
}

#[test]
fn subnets_are_numbered_like_columns() {
    let subnets = all_payload_column_sidecar_subnets::<E>();
    assert_eq!(subnets.len(), 128);
    for (index, subnet) in subnets.iter().enumerate() {
        assert_eq!(**subnet, index as u64);
        assert_eq!(*subnet, PayloadColumnSubnetId::from_column_index(index as u64));
        assert_eq!(u64::from(subnet), index as u64);
        assert_eq!(PayloadColumnSubnetId::from(u64::from(*subnet)), *subnet);
    }
}

#[test]
fn subnets_are_written_in_decimal() {
    assert_eq!(PayloadColumnSubnetId::new(0).to_string(), "0");
    assert_eq!(PayloadColumnSubnetId::new(127).to_string(), "127");
    assert_eq!(PayloadColumnSubnetId::new(u64::MAX).to_string(), "18446744073709551615");
}

#[test]
fn a_subnet_can_be_renumbered() {
    let mut subnet = PayloadColumnSubnetId::new(1);
    *subnet.as_mut() = 9;
    assert_eq!(*subnet, 9);
}

#[test]
fn epochs_and_slots() {
    assert_eq!(Slot::new(31).epoch(32), Epoch::new(0));
    assert_eq!(Slot::new(32).epoch(32), Epoch::new(1));
    assert_eq!(Epoch::new(3).start_slot(32), Slot::new(96));
    assert_eq!(Epoch::new(u64::MAX).start_slot(32), Slot::new(u64::MAX));
}
