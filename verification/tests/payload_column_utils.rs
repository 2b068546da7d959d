use payload_columns::containers::{Blob, PayloadColumn};
use payload_columns::error::PayloadColumnError;
use payload_columns::eth_spec::{EthSpec, MainnetEthSpec, BYTES_PER_FIELD_ELEMENT};
use payload_columns::payload_codec::{
    blobs_to_payload_data, join_fields, payload_column_data, payload_data_to_blobs, unpack_blobs,
    usable_bytes_per_blob, EncodedPayloadData, PayloadColumnData,
};
use payload_columns::payload_column_sidecar::PayloadColumnSidecar;
use payload_columns::payload_column_utils::{
    build_payload_column_sidecars, build_sidecars_from_rows, compute_payload_columns_root,
    extend_blob, payload_columns_to_payload_data, recover_payload_columns, recover_row,
    rows_to_recover, unpack_columns,
};
use payload_columns::primitives::{Slot, ZERO_ROOT};
use rust_eth_kzg::DASContext;
use ssz::{Decode, DecodeError};

type E = MainnetEthSpec;

fn kzg() -> DASContext {
    DASContext::default()
}

/// Takes a field as it is encoded.
fn encoded(bytes: Vec<u8>) -> Result<Vec<u8>, DecodeError> {
    Vec::<u8>::from_ssz_bytes(&bytes)
}

fn decode_blobs(blobs: &Vec<Blob>) -> Result<EncodedPayloadData, PayloadColumnError> {
    blobs_to_payload_data::<E, _, _, _, _>(blobs, encoded, encoded)
}

fn decode_columns(
    columns: &Vec<PayloadColumnSidecar>,
) -> Result<EncodedPayloadData, PayloadColumnError> {
    payload_columns_to_payload_data::<E, _, _, _, _>(columns, encoded, encoded)
}

/// The SSZ encoding of an execution payload whose fields are all zero or empty, but for one
/// transaction of the given size.
fn payload_bytes(transaction_bytes: usize) -> Vec<u8> {
    let mut bytes = vec![0u8; 528];
    let transactions = if transaction_bytes > 0 { 4 + transaction_bytes } else { 0 };
    bytes[436..440].copy_from_slice(&528u32.to_le_bytes());
    bytes[504..508].copy_from_slice(&528u32.to_le_bytes());
    bytes[508..512].copy_from_slice(&((528 + transactions) as u32).to_le_bytes());
    if transaction_bytes > 0 {
        bytes.extend_from_slice(&4u32.to_le_bytes());
        bytes.extend(vec![0xab; transaction_bytes]);
    }
    bytes
}

/// The SSZ encoding of no execution requests.
fn no_requests() -> Vec<u8> {
    [12u32.to_le_bytes(), 12u32.to_le_bytes(), 12u32.to_le_bytes()].concat()
}

fn payload_data(transaction_bytes: usize) -> EncodedPayloadData {
    PayloadColumnData {
        payload: payload_bytes(transaction_bytes),
        execution_requests: no_requests(),
    }
}

#[test]
fn blob_round_trip_empty_payload() {
    let data = payload_data(0);
    let blobs = payload_data_to_blobs::<E>(&data).expect("should encode");
    assert_eq!(blobs.len(), 1, "an empty payload still occupies one blob");
    assert_eq!(decode_blobs(&blobs).expect("should decode"), data);
}

#[test]
fn blob_round_trip_single_blob() {
    let data = payload_data(1024);
    let blobs = payload_data_to_blobs::<E>(&data).expect("should encode");
    assert_eq!(blobs.len(), 1);
    assert_eq!(decode_blobs(&blobs).expect("should decode"), data);
}

#[test]
fn blob_round_trip_multiple_blobs() {
    // Comfortably larger than one blob's worth of usable bytes.
    let usable = usable_bytes_per_blob::<E>().expect("no overflow");
    let data = payload_data(usable * 2 + 17);
    let blobs = payload_data_to_blobs::<E>(&data).expect("should encode");
    assert!(blobs.len() >= 3, "expected >= 3 blobs, got {}", blobs.len());
    assert_eq!(decode_blobs(&blobs).expect("should decode"), data);
}

#[test]
fn decode_rejects_non_canonical_field_element() {
    let data = payload_data(64);
    let mut blobs = payload_data_to_blobs::<E>(&data).expect("should encode");
    // Set the MSB of the second field element.
    let mut bytes = blobs.remove(0).into_bytes();
    bytes[BYTES_PER_FIELD_ELEMENT] = 1;
    blobs.insert(0, Blob::new(bytes).expect("blob size"));
    assert!(matches!(
        decode_blobs(&blobs),
        Err(PayloadColumnError::NonCanonicalFieldElement { .. })
    ));
}

#[test]
fn decode_rejects_trailing_data() {
    let data = payload_data(64);
    let mut blobs = payload_data_to_blobs::<E>(&data).expect("should encode");
    // Write a non-zero byte into the padding at the very end of the last blob.
    let mut last = blobs.pop().expect("at least one blob").into_bytes();
    let len = last.len();
    last[len - 1] = 0xff;
    blobs.push(Blob::new(last).expect("blob size"));
    assert!(matches!(
        decode_blobs(&blobs),
        Err(PayloadColumnError::TrailingData)
    ));
}

#[test]
fn sidecars_verify_against_returned_root() {
    let data = payload_data(4096);
    let block_root = [3u8; 32];
    let (sidecars, root) =
        build_payload_column_sidecars::<E>(&data, block_root, Slot::new(7), &kzg())
            .expect("should build sidecars");

    assert_eq!(sidecars.len(), E::number_of_columns());
    for sidecar in &sidecars {
        assert!(
            sidecar.verify_inclusion_proof(root),
            "column {} should verify",
            sidecar.index
        );
        assert_eq!(sidecar.beacon_block_root, block_root);
        assert_eq!(sidecar.slot, Slot::new(7));
    }
}

#[test]
fn recovery_from_half_the_columns_reproduces_everything() {
    let kzg = kzg();
    let data = payload_data(4096);
    let block_root = [3u8; 32];
    let slot = Slot::new(7);
    let (sidecars, root) = build_payload_column_sidecars::<E>(&data, block_root, slot, &kzg)
        .expect("should build sidecars");

    // Keep every other column, so exactly half survive.
    let half = sidecars
        .iter()
        .filter(|s| s.index % 2 == 0)
        .cloned()
        .collect::<Vec<_>>();
    assert_eq!(half.len(), E::number_of_columns() / 2);

    let recovered = recover_payload_columns::<E>(&half, &kzg).expect("should recover");

    // Cell-for-cell equality is what pins the recovered ordering to the extension.
    assert_eq!(recovered, sidecars);
    for sidecar in &recovered {
        assert!(sidecar.verify_inclusion_proof(root));
    }
}

#[test]
fn recovered_columns_decode_to_the_original_payload() {
    let kzg = kzg();
    let usable = usable_bytes_per_blob::<E>().expect("no overflow");
    let data = payload_data(usable + 128);
    let (sidecars, _) = build_payload_column_sidecars::<E>(&data, ZERO_ROOT, Slot::new(1), &kzg)
        .expect("should build sidecars");

    let half = sidecars
        .iter()
        .filter(|s| s.index >= (E::number_of_columns() as u64) / 2)
        .cloned()
        .collect::<Vec<_>>();
    let recovered = recover_payload_columns::<E>(&half, &kzg).expect("should recover");

    assert_eq!(
        decode_columns(&recovered).expect("should decode"),
        data
    );
}

#[test]
fn decoding_requires_the_full_column_set() {
    let data = payload_data(1024);
    let (sidecars, _) =
        build_payload_column_sidecars::<E>(&data, ZERO_ROOT, Slot::new(1), &kzg())
            .expect("should build sidecars");

    // A full set decodes without any recovery step.
    assert_eq!(
        decode_columns(&sidecars).expect("should decode"),
        data
    );

    // A partial set does not, recovery must run first.
    let partial = sidecars
        .into_iter()
        .take(E::number_of_columns() - 1)
        .collect::<Vec<_>>();
    assert!(matches!(
        decode_columns(&partial),
        Err(PayloadColumnError::InsufficientColumns { .. })
    ));
}

#[test]
fn recovery_rejects_too_few_columns() {
    let kzg = kzg();
    let data = payload_data(1024);
    let (sidecars, _) = build_payload_column_sidecars::<E>(&data, ZERO_ROOT, Slot::new(1), &kzg)
        .expect("should build sidecars");

    let too_few = sidecars
        .into_iter()
        .take(E::number_of_columns() / 2 - 1)
        .collect::<Vec<_>>();
    assert!(matches!(
        recover_payload_columns::<E>(&too_few, &kzg),
        Err(PayloadColumnError::InsufficientColumns { .. })
    ));
}

#[test]
fn compute_root_matches_build() {
    let kzg = kzg();
    let data = payload_data(2048);
    let (_, root) = build_payload_column_sidecars::<E>(&data, ZERO_ROOT, Slot::new(1), &kzg)
        .expect("should build sidecars");
    assert_eq!(
        compute_payload_columns_root::<E>(&data, &kzg).expect("should compute root"),
        root,
        "the root must not depend on block root or slot"
    );
}

#[test]
fn usable_bytes_are_31_of_32() {
    assert_eq!(usable_bytes_per_blob::<E>().expect("no overflow"), 126976);
}

#[test]
fn packing_is_exact_byte_for_byte() {
    let data = payload_column_data(&vec![0x11; 3], &vec![0x22; 2]);
    let blobs = payload_data_to_blobs::<E>(&data).expect("should encode");
    assert_eq!(blobs.len(), 1);
    let bytes = blobs[0].as_bytes();
    // A zero byte, the length of the container, its two offsets, and its two fields.
    let expected = [
        0u8, 0, 0, 0, 13, 8, 0, 0, 0, 11, 0, 0, 0, 0x11, 0x11, 0x11, 0x22, 0x22,
    ];
    assert_eq!(&bytes[..18], &expected);
    assert!(bytes[18..].iter().all(|b| *b == 0));
}

#[test]
fn data_that_fills_a_blob_exactly_takes_one_blob() {
    let usable = usable_bytes_per_blob::<E>().expect("no overflow");
    let fits = PayloadColumnData {
        payload: vec![7; usable - 12],
        execution_requests: Vec::new(),
    };
    let blobs = payload_data_to_blobs::<E>(&fits).expect("should encode");
    assert_eq!(blobs.len(), 1);
    // The second field element starts with its zero byte; data follows.
    assert_eq!(blobs[0].as_bytes()[32], 0);
    assert_eq!(blobs[0].as_bytes()[33], 7);
    assert_eq!(blobs[0].as_bytes()[131071], 7);

    let one_more = PayloadColumnData {
        payload: vec![7; usable - 11],
        execution_requests: Vec::new(),
    };
    assert_eq!(payload_data_to_blobs::<E>(&one_more).expect("should encode").len(), 2);
    let blobs = payload_data_to_blobs::<E>(&one_more).expect("should encode");
    assert_eq!(decode_blobs(&blobs).expect("should decode"), one_more);
}

#[test]
fn decode_reports_where_a_field_element_is_not_canonical() {
    let first = Blob::new(vec![0; 131072]).expect("blob size");
    let mut bytes = vec![0; 131072];
    bytes[64] = 9;
    let blobs = vec![first, Blob::new(bytes).expect("blob size")];
    assert!(matches!(
        decode_blobs(&blobs),
        Err(PayloadColumnError::NonCanonicalFieldElement { offset: 131136 })
    ));
}

#[test]
fn decode_rejects_a_length_that_is_not_there() {
    assert!(matches!(
        decode_blobs(&Vec::new()),
        Err(PayloadColumnError::InvalidLengthPrefix { declared: 0, available: 0 })
    ));
    let mut bytes = vec![0; 131072];
    bytes[2] = 2;
    let blobs = vec![Blob::new(bytes).expect("blob size")];
    assert!(matches!(
        decode_blobs(&blobs),
        Err(PayloadColumnError::InvalidLengthPrefix { declared: 131072, available: 126976 })
    ));
}

#[test]
fn decode_rejects_what_is_no_container() {
    // Four bytes that are no offset of a container.
    let mut bytes = vec![0; 131072];
    bytes[4] = 4;
    bytes[5] = 9;
    let blobs = vec![Blob::new(bytes).expect("blob size")];
    assert!(matches!(
        decode_blobs(&blobs),
        Err(PayloadColumnError::Ssz(ssz::DecodeError::OffsetOutOfBounds(9)))
    ));
    // The second offset lies before the fields.
    let mut bytes = vec![0; 131072];
    bytes[4] = 8;
    bytes[5] = 8;
    bytes[9] = 7;
    let blobs = vec![Blob::new(bytes).expect("blob size")];
    assert!(matches!(
        decode_blobs(&blobs),
        Err(PayloadColumnError::Ssz(_))
    ));
}

#[test]
fn payload_too_large_is_refused() {
    let usable = usable_bytes_per_blob::<E>().expect("no overflow");
    let data = PayloadColumnData {
        payload: vec![0; usable * 4096 - 11],
        execution_requests: Vec::new(),
    };
    assert!(matches!(
        payload_data_to_blobs::<E>(&data),
        Err(PayloadColumnError::PayloadTooLarge { blobs: 4097, max: 4096 })
    ));
}

#[test]
fn the_first_half_of_the_columns_holds_the_blob() {
    let data = payload_data(1024);
    let blobs = payload_data_to_blobs::<E>(&data).expect("should encode");
    let (sidecars, _) =
        build_payload_column_sidecars::<E>(&data, ZERO_ROOT, Slot::new(1), &kzg())
            .expect("should build sidecars");
    for (index, sidecar) in sidecars.iter().enumerate() {
        assert_eq!(sidecar.index, index as u64);
        assert_eq!(sidecar.column.len(), 1);
        let cell = &sidecar.column.as_cells()[0];
        assert_eq!(cell.len(), 2048);
        if index < 64 {
            assert_eq!(cell[..], blobs[0].as_bytes()[index * 2048..(index + 1) * 2048]);
        }
    }
    assert!(sidecars[64].column.as_cells()[0].iter().any(|b| *b != 0));
}

#[test]
fn recovery_rejects_columns_of_different_lengths() {
    let kzg = kzg();
    let (short, _) =
        build_payload_column_sidecars::<E>(&payload_data(64), ZERO_ROOT, Slot::new(1), &kzg)
            .expect("should build sidecars");
    let usable = usable_bytes_per_blob::<E>().expect("no overflow");
    let (long, _) =
        build_payload_column_sidecars::<E>(&payload_data(usable), ZERO_ROOT, Slot::new(1), &kzg)
            .expect("should build sidecars");
    let mut mixed = short;
    mixed.pop();
    mixed.push(long[127].clone());
    assert!(matches!(
        recover_payload_columns::<E>(&mixed, &kzg),
        Err(PayloadColumnError::InconsistentColumnLengths)
    ));
    assert!(matches!(
        decode_columns(&mixed),
        Err(PayloadColumnError::InconsistentColumnLengths)
    ));
}

#[test]
fn recovery_rejects_columns_out_of_order() {
    let kzg = kzg();
    let (mut sidecars, _) =
        build_payload_column_sidecars::<E>(&payload_data(64), ZERO_ROOT, Slot::new(1), &kzg)
            .expect("should build sidecars");
    sidecars.truncate(64);
    sidecars.swap(3, 4);
    assert!(matches!(
        recover_payload_columns::<E>(&sidecars, &kzg),
        Err(PayloadColumnError::Kzg(_))
    ));
}

#[test]
fn decoding_names_a_column_out_of_place() {
    let (mut sidecars, _) =
        build_payload_column_sidecars::<E>(&payload_data(64), ZERO_ROOT, Slot::new(1), &kzg())
            .expect("should build sidecars");
    sidecars[12].index = 100;
    match decode_columns(&sidecars) {
        Err(PayloadColumnError::Internal(message)) => {
            assert_eq!(message, "column at position 12 has index 100")
        }
        other => panic!("{:?}", other),
    }
}

#[test]
fn columns_without_cells_decode_to_no_length_prefix() {
    let (mut sidecars, _) =
        build_payload_column_sidecars::<E>(&payload_data(64), ZERO_ROOT, Slot::new(1), &kzg())
            .expect("should build sidecars");
    for sidecar in sidecars.iter_mut() {
        sidecar.column = PayloadColumn::empty();
        // Without rows no place is looked at.
        sidecar.index = 0;
    }
    assert!(matches!(
        decode_columns(&sidecars),
        Err(PayloadColumnError::InvalidLengthPrefix { declared: 0, available: 0 })
    ));
}

#[test]
fn recovered_columns_belong_to_the_first_columns_block() {
    let kzg = kzg();
    let (sidecars, _) =
        build_payload_column_sidecars::<E>(&payload_data(64), [5; 32], Slot::new(9), &kzg)
            .expect("should build sidecars");
    let recovered = recover_payload_columns::<E>(&sidecars, &kzg).expect("should recover");
    assert_eq!(recovered.len(), 128);
    assert!(recovered.iter().all(|s| s.beacon_block_root == [5; 32] && s.slot == Slot::new(9)));
}

#[test]
fn decoded_blobs_encode_to_themselves() {
    let data = payload_data(200_000);
    let blobs = payload_data_to_blobs::<E>(&data).expect("should encode");
    let decoded = decode_blobs(&blobs).expect("should decode");
    assert_eq!(payload_data_to_blobs::<E>(&decoded).expect("should encode"), blobs);

    // A blob of zeroes at the end is padding.
    let mut padded = blobs;
    padded.push(Blob::new(vec![0; 131072]).expect("blob size"));
    assert_eq!(decode_blobs(&padded).expect("should decode"), data);
}

#[test]
fn any_bytes_pack_into_canonical_field_elements() {
    let data = PayloadColumnData {
        payload: vec![0xff; 5000],
        execution_requests: vec![0xff; 5000],
    };
    let (sidecars, root) =
        build_payload_column_sidecars::<E>(&data, [1; 32], Slot::new(3), &kzg())
            .expect("should build sidecars");
    assert_eq!(decode_columns(&sidecars).expect("should decode"), data);
    assert_eq!(
        compute_payload_columns_root::<E>(&data, &kzg()).expect("should compute root"),
        root
    );
}

#[test]
fn more_than_half_of_the_columns_recover_too() {
    let kzg = kzg();
    let (sidecars, _) =
        build_payload_column_sidecars::<E>(&payload_data(64), [1; 32], Slot::new(3), &kzg)
            .expect("should build sidecars");
    let most = sidecars.iter().filter(|s| s.index % 5 != 0).cloned().collect::<Vec<_>>();
    assert_eq!(recover_payload_columns::<E>(&most, &kzg).expect("should recover"), sidecars);
}

#[test]
fn recovery_rejects_the_same_column_twice() {
    let kzg = kzg();
    let (mut sidecars, _) =
        build_payload_column_sidecars::<E>(&payload_data(64), [1; 32], Slot::new(3), &kzg)
            .expect("should build sidecars");
    sidecars.truncate(64);
    let last = sidecars[63].clone();
    sidecars[63] = sidecars[62].clone();
    assert!(matches!(
        recover_payload_columns::<E>(&sidecars, &kzg),
        Err(PayloadColumnError::InsufficientColumns { supplied: 63, required: 64 })
    ));
    // Enough distinct columns recover, unless one of them is there twice.
    sidecars.push(last);
    assert!(matches!(
        recover_payload_columns::<E>(&sidecars, &kzg),
        Err(PayloadColumnError::Kzg(_))
    ));
}

#[test]
fn one_column_many_times_is_not_enough_without_rows_either() {
    let sidecar = PayloadColumnSidecar {
        index: 5,
        column: PayloadColumn::empty(),
        column_inclusion_proof: [ZERO_ROOT; 7],
        slot: Slot::new(3),
        beacon_block_root: [1; 32],
    };
    let sidecars = vec![sidecar; 64];
    assert!(matches!(
        recover_payload_columns::<E>(&sidecars, &kzg()),
        Err(PayloadColumnError::InsufficientColumns { supplied: 1, required: 64 })
    ));
    assert!(matches!(
        rows_to_recover::<E>(&sidecars),
        Err(PayloadColumnError::InsufficientColumns { supplied: 1, required: 64 })
    ));
}

#[test]
fn rows_can_be_extended_one_by_one() {
    let kzg = kzg();
    let usable = usable_bytes_per_blob::<E>().expect("no overflow");
    let data = payload_data(usable);
    let rows = payload_data_to_blobs::<E>(&data)
        .expect("should encode")
        .iter()
        .map(|blob| extend_blob(blob, &kzg).expect("should extend"))
        .collect::<Vec<_>>();
    assert_eq!(rows.len(), 2);
    let (sidecars, root) = build_payload_column_sidecars::<E>(&data, [1; 32], Slot::new(3), &kzg)
        .expect("should build sidecars");
    assert_eq!(
        build_sidecars_from_rows::<E>(&rows, [1; 32], Slot::new(3)).expect("should build"),
        (sidecars.clone(), root)
    );

    let half = sidecars[64..].to_vec();
    assert_eq!(rows_to_recover::<E>(&half).expect("should recover"), 2);
    assert_eq!(recover_row(&half, 1, &kzg).expect("should recover"), rows[1]);
}

#[test]
fn a_blob_that_is_not_canonical_has_no_extension() {
    let kzg = kzg();
    // The order of the field is below a number of 32 bytes of 0xff.
    let blob = Blob::new(vec![0xff; 131072]).expect("blob size");
    assert!(extend_blob(&blob, &kzg).is_err());
    // The order of the field itself, and the number before it.
    let order = [
        0x73u8, 0xed, 0xa7, 0x53, 0x29, 0x9d, 0x7d, 0x48, 0x33, 0x39, 0xd8, 0x08, 0x09, 0xa1, 0xd8,
        0x05, 0x53, 0xbd, 0xa4, 0x02, 0xff, 0xfe, 0x5b, 0xfe, 0xff, 0xff, 0xff, 0xff, 0x00, 0x00,
        0x00, 0x01,
    ];
    let mut bytes = vec![0; 131072];
    bytes[64..96].copy_from_slice(&order);
    assert!(extend_blob(&Blob::new(bytes.clone()).expect("blob size"), &kzg).is_err());
    bytes[95] = 0;
    assert!(extend_blob(&Blob::new(bytes).expect("blob size"), &kzg).is_ok());
}

fn numbers(bytes: Vec<u8>) -> Result<Vec<u64>, DecodeError> {
    Vec::<u64>::from_ssz_bytes(&bytes)
}

fn number(bytes: Vec<u8>) -> Result<u16, DecodeError> {
    u16::from_ssz_bytes(&bytes)
}

#[test]
fn fields_are_decoded_from_blobs_and_columns() {
    let kzg = kzg();
    let cases = [
        // Both fields decode.
        (vec![1, 0, 0, 0, 0, 0, 0, 0, 2, 0, 0, 0, 0, 0, 0, 0], vec![3, 1], None),
        (vec![], vec![0, 0], None),
        // The requests do not.
        (vec![0; 8], vec![], Some(DecodeError::InvalidByteLength { len: 0, expected: 2 })),
        // The payload does not, whether or not the requests do.
        (vec![0; 9], vec![0, 0], Some(numbers(vec![0; 9]).expect_err("no numbers"))),
        (vec![0; 9], vec![0, 0, 0], Some(numbers(vec![0; 9]).expect_err("no numbers"))),
    ];
    for (payload, execution_requests, error) in cases {
        let data = PayloadColumnData { payload, execution_requests };
        let blobs = payload_data_to_blobs::<E>(&data).expect("should encode");
        let (sidecars, _) =
            build_payload_column_sidecars::<E>(&data, [1; 32], Slot::new(3), &kzg)
                .expect("should build sidecars");
        assert_eq!(unpack_blobs::<E>(&blobs).expect("should unpack"), data);
        assert_eq!(unpack_columns::<E>(&sidecars).expect("should unpack"), data);
        for decoded in [
            blobs_to_payload_data::<E, _, _, _, _>(&blobs, numbers, number),
            payload_columns_to_payload_data::<E, _, _, _, _>(&sidecars, numbers, number),
        ] {
            match (decoded, &error) {
                (Ok(decoded), None) => {
                    assert_eq!(decoded.payload, numbers(data.payload.clone()).expect("numbers"));
                    assert_eq!(
                        decoded.execution_requests,
                        number(data.execution_requests.clone()).expect("a number")
                    );
                }
                (Err(PayloadColumnError::Ssz(e)), Some(error)) => assert_eq!(e, *error),
                other => panic!("{:?}", other),
            }
        }
    }
}

#[test]
fn fields_are_joined_where_both_decode() {
    let wrong = |len| DecodeError::InvalidByteLength { len, expected: 2 };
    let joined = join_fields::<u8, u16>(Ok(1), Ok(2)).expect("should join");
    assert_eq!((joined.payload, joined.execution_requests), (1, 2));
    assert!(matches!(
        join_fields::<u8, u16>(Ok(1), Err(wrong(3))),
        Err(PayloadColumnError::Ssz(e)) if e == wrong(3)
    ));
    assert!(matches!(
        join_fields::<u8, u16>(Err(wrong(4)), Ok(2)),
        Err(PayloadColumnError::Ssz(e)) if e == wrong(4)
    ));
    assert!(matches!(
        join_fields::<u8, u16>(Err(wrong(4)), Err(wrong(3))),
        Err(PayloadColumnError::Ssz(e)) if e == wrong(4)
    ));
}
