use payload_columns::bitarray::{bitarray_get, custody_columns_to_bitarray, find_place};
use payload_columns::column_selection::Indexed;
use payload_columns::fetch_blobs::{
    build_blob_sidecars, compute_custody_columns_from_cells, compute_custody_columns_to_import,
    kzg_commitment_to_versioned_hash, AvailabilityProcessingStatus, BlobCellsAndProofs,
    EngineGetBlobsOutput, EngineTypes, FetchContext, FetchEngineBlobError, FetchState,
    MergeOutcome,
};
use payload_columns::primitives::Slot;
use std::collections::HashSet;

/// Blobs, columns and errors are told apart by numbers and words.
struct Engine;

impl EngineTypes for Engine {
    type BlobAndProofV1 = u32;
    type BlobAndProofV2 = u32;
    type Cell = u8;
    type Proof = u8;
    type Blob = u32;
    type PartialColumn = u32;
    type Column = u32;
    type Error = String;
}

type State = FetchState<Engine>;
type FetchError = FetchEngineBlobError<String>;

fn begin(commitments: usize, peer_das_enabled: bool) -> State {
    State::begin(
        [1; 32],
        Slot::new(5),
        &vec![[0xc0; 48]; commitments],
        vec![3, 70],
        peer_das_enabled,
    )
}

/// The context of a fetch of two blobs.
fn context() -> FetchContext {
    match begin(2, false) {
        FetchState::RequestBlobsV1(context) => context,
        _ => panic!("another state"),
    }
}

fn ends_with_nothing(state: State) -> bool {
    matches!(state, FetchState::Done(Ok(None)))
}

fn request_failed() -> FetchError {
    FetchEngineBlobError::RequestFailed("engine".to_string())
}

fn ends_with_failed_request(state: State) -> bool {
    matches!(
        state,
        FetchState::Done(Err(FetchEngineBlobError::RequestFailed(text))) if text == "engine"
    )
}

fn indexed(indices: &[u64]) -> Vec<Indexed<u32>> {
    indices
        .iter()
        .map(|index| Indexed { index: *index, item: 100 + *index as u32 })
        .collect()
}

fn indices<I>(items: &[Indexed<I>]) -> Vec<u64> {
    items.iter().map(|item| item.index).collect()
}

#[test]
fn versioned_hash_starts_with_its_version() {
    // SHA-256 of 48 zero bytes is
    // 17b0761f87b081d5cf10757ccc89f12be355c70e2e29df288b65b30710dcbcd1.
    let hash = kzg_commitment_to_versioned_hash(&[0; 48]);
    assert_eq!(hash[0], 1);
    assert_eq!(hash[1..5], [0xb0, 0x76, 0x1f, 0x87]);
}

#[test]
fn nothing_is_fetched_without_commitments() {
    assert!(ends_with_nothing(begin(0, false)));
    assert!(ends_with_nothing(begin(0, true)));
}

#[test]
fn before_peer_das_blobs_are_requested() {
    let context = context();
    assert_eq!(context.block_root, [1; 32]);
    assert_eq!(context.slot, Slot::new(5));
    assert_eq!(context.custody_columns, vec![3, 70]);
    let hash = kzg_commitment_to_versioned_hash(&[0xc0; 48]);
    assert_eq!(context.versioned_hashes, vec![hash, hash]);
}

#[test]
fn from_peer_das_on_cells_come_first() {
    assert!(matches!(begin(2, true), FetchState::AskV4Support(_)));
    assert!(matches!(
        State::v4_support_answered(context(), Ok(true)),
        FetchState::AskExecutionBlockHash(_)
    ));
    assert!(matches!(
        State::v4_support_answered(context(), Ok(false)),
        FetchState::AskV3Support(_)
    ));
    assert!(ends_with_failed_request(State::v4_support_answered(
        context(),
        Err(request_failed())
    )));
}

#[test]
fn cells_of_custody_columns_are_requested() {
    match State::execution_block_hash_answered(context(), Ok(Some([8; 32]))) {
        FetchState::RequestCellsV4(context, hash, bitarray) => {
            assert_eq!(hash, [8; 32]);
            assert_eq!(context.custody_columns, vec![3, 70]);
            let held = (0..128).filter(|i| bitarray_get(&bitarray, *i)).collect::<Vec<_>>();
            assert_eq!(held, vec![3, 70]);
        }
        _ => panic!("another state"),
    }
    assert!(matches!(
        State::execution_block_hash_answered(context(), Ok(None)),
        FetchState::AskV3Support(_)
    ));
    assert!(ends_with_failed_request(State::execution_block_hash_answered(
        context(),
        Err(request_failed())
    )));
}

#[test]
fn partial_responses_are_asked_for_where_supported() {
    assert!(matches!(
        State::v3_support_answered(context(), Ok(true)),
        FetchState::RequestBlobsV3(_)
    ));
    assert!(matches!(
        State::v3_support_answered(context(), Ok(false)),
        FetchState::RequestBlobsV2(_)
    ));
    assert!(ends_with_failed_request(State::v3_support_answered(
        context(),
        Err(request_failed())
    )));
}

#[test]
fn a_v1_response_without_blobs_ends_the_fetch() {
    assert!(ends_with_nothing(State::blobs_v1_received(context(), Ok(vec![None, None]))));
    assert!(ends_with_failed_request(State::blobs_v1_received(
        context(),
        Err(request_failed())
    )));
    match State::blobs_v1_received(context(), Ok(vec![None, Some(5)])) {
        FetchState::CheckImportedV1(_, response) => assert_eq!(response, vec![None, Some(5)]),
        _ => panic!("another state"),
    }
}

#[test]
fn an_imported_block_ends_the_fetch() {
    assert!(ends_with_nothing(State::imported_v1_answered(context(), vec![Some(5)], true)));
    assert!(ends_with_nothing(State::imported_v2_or_v3_answered(context(), vec![Some(5)], true)));
    assert!(ends_with_nothing(State::imported_v4_answered(context(), Vec::new(), true)));
    assert!(matches!(
        State::imported_v1_answered(context(), vec![Some(5)], false),
        FetchState::BuildSidecars(_, _)
    ));
    assert!(matches!(
        State::imported_v2_or_v3_answered(context(), vec![Some(5)], false),
        FetchState::ComputeColumns(_, _)
    ));
    assert!(matches!(
        State::imported_v4_answered(context(), Vec::new(), false),
        FetchState::ComputeColumnsFromCells(_, _)
    ));
}

#[test]
fn sidecars_are_built_of_the_blobs_that_are_there() {
    let response = vec![None, Some(7), None, Some(9)];
    let built = build_blob_sidecars::<Engine, _>(response, |index, blob| {
        Ok(blob * 10 + index as u32)
    })
    .expect("should build");
    assert_eq!(indices(&built), vec![1, 3]);
    assert_eq!(built.iter().map(|b| b.item).collect::<Vec<_>>(), vec![71, 93]);
    match State::sidecars_built(context(), Ok(built)) {
        FetchState::AskObservedBlobs(_, blobs) => assert_eq!(indices(&blobs), vec![1, 3]),
        _ => panic!("another state"),
    }
}

#[test]
fn the_first_sidecar_that_cannot_be_built_ends_the_fetch() {
    let response = vec![Some(7), Some(8), Some(9)];
    let built = build_blob_sidecars::<Engine, _>(response, |_, blob| {
        if blob > 7 {
            Err(format!("blob {blob}"))
        } else {
            Ok(blob)
        }
    });
    assert!(matches!(
        State::sidecars_built(context(), built),
        FetchState::Done(Err(FetchEngineBlobError::BlobSidecarError(text))) if text == "blob 8"
    ));
}

#[test]
fn observed_blobs_are_dropped() {
    let observed = Some(HashSet::from([0u64, 2]));
    match State::observed_blobs_answered(context(), indexed(&[0, 1, 2, 3]), &observed) {
        FetchState::AskKnownBlobs(_, blobs) => assert_eq!(indices(&blobs), vec![1, 3]),
        _ => panic!("another state"),
    }
    assert!(ends_with_nothing(State::observed_blobs_answered(
        context(),
        indexed(&[0, 2]),
        &observed
    )));
    match State::observed_blobs_answered(context(), indexed(&[0, 2]), &None) {
        FetchState::AskKnownBlobs(_, blobs) => assert_eq!(indices(&blobs), vec![0, 2]),
        _ => panic!("another state"),
    }
}

#[test]
fn known_blobs_are_dropped_and_the_others_published() {
    match State::known_blobs_answered(context(), indexed(&[1, 3]), &Some(vec![3])) {
        FetchState::PublishAndImport(_, EngineGetBlobsOutput::Blobs(blobs)) => {
            assert_eq!(indices(&blobs), vec![1]);
            assert_eq!(blobs[0].item, 101);
        }
        _ => panic!("another state"),
    }
    assert!(ends_with_nothing(State::known_blobs_answered(
        context(),
        indexed(&[1, 3]),
        &Some(vec![3, 1])
    )));
    assert!(matches!(
        State::known_blobs_answered(context(), indexed(&[1, 3]), &None),
        FetchState::PublishAndImport(_, _)
    ));
}

#[test]
fn a_v2_response_is_complete_or_ignored() {
    assert!(ends_with_nothing(State::blobs_v2_received(context(), Ok(None))));
    assert!(ends_with_nothing(State::blobs_v2_received(context(), Ok(Some(vec![5])))));
    assert!(ends_with_failed_request(State::blobs_v2_received(
        context(),
        Err(request_failed())
    )));
    match State::blobs_v2_received(context(), Ok(Some(vec![5, 6]))) {
        FetchState::CheckImportedV2OrV3(_, response) => {
            assert_eq!(response, vec![Some(5), Some(6)])
        }
        _ => panic!("another state"),
    }
}

#[test]
fn a_v3_response_may_be_partial() {
    assert!(ends_with_nothing(State::blobs_v3_received(context(), Ok(None))));
    assert!(ends_with_failed_request(State::blobs_v3_received(
        context(),
        Err(request_failed())
    )));
    match State::blobs_v3_received(context(), Ok(Some(vec![None, Some(6)]))) {
        FetchState::CheckImportedV2OrV3(_, response) => assert_eq!(response, vec![None, Some(6)]),
        _ => panic!("another state"),
    }
}

#[test]
fn only_new_custody_columns_are_imported() {
    let columns = compute_custody_columns_to_import::<Engine>(
        Ok(indexed(&[0, 1, 2, 3, 4, 5])),
        &vec![5, 1, 3, 4],
        &Some(HashSet::from([1u64])),
        &Some(vec![4, 9]),
    )
    .expect("should choose");
    assert_eq!(indices(&columns), vec![3, 5]);

    let all = compute_custody_columns_to_import::<Engine>(
        Ok(indexed(&[0, 1, 2])),
        &vec![0, 2],
        &None,
        &None,
    )
    .expect("should choose");
    assert_eq!(indices(&all), vec![0, 2]);

    assert!(matches!(
        compute_custody_columns_to_import::<Engine>(
            Err("columns".to_string()),
            &vec![0],
            &None,
            &None
        ),
        Err(FetchEngineBlobError::DataColumnSidecarError(text)) if text == "columns"
    ));
}

#[test]
fn computed_columns_are_merged_unless_there_are_none() {
    assert!(matches!(
        State::columns_computed(context(), None),
        FetchState::Done(Err(FetchEngineBlobError::RuntimeShutdown))
    ));
    assert!(matches!(
        State::columns_computed(context(), Some(Err("join".to_string()))),
        FetchState::Done(Err(FetchEngineBlobError::TokioJoin(text))) if text == "join"
    ));
    assert!(ends_with_failed_request(State::columns_computed(
        context(),
        Some(Ok(Err(request_failed())))
    )));
    assert!(ends_with_nothing(State::columns_computed(context(), Some(Ok(Ok(Vec::new()))))));
    assert!(matches!(
        State::columns_computed(context(), Some(Ok(Ok(indexed(&[3]))))),
        FetchState::MergeColumns(_, columns) if indices(&columns) == vec![3]
    ));
}

#[test]
fn full_columns_are_published() {
    let outcome = MergeOutcome::Converted(vec![None, Some(5), Some(6), None]);
    match State::columns_merged(context(), outcome) {
        FetchState::PublishAndImport(_, EngineGetBlobsOutput::CustodyColumns(columns)) => {
            assert_eq!(columns, vec![5, 6])
        }
        _ => panic!("another state"),
    }
    match State::columns_merged(context(), MergeOutcome::Assembled(Some(vec![4]))) {
        FetchState::PublishAndImport(_, EngineGetBlobsOutput::CustodyColumns(columns)) => {
            assert_eq!(columns, vec![4])
        }
        _ => panic!("another state"),
    }
}

#[test]
fn without_full_columns_components_are_missing() {
    for outcome in [
        MergeOutcome::Converted(vec![None, None]),
        MergeOutcome::Assembled(Some(Vec::new())),
    ] {
        assert!(matches!(
            State::columns_merged(context(), outcome),
            FetchState::Done(Ok(Some(AvailabilityProcessingStatus::MissingComponents(
                Slot(5),
                root
            )))) if root == [1; 32]
        ));
    }
    match State::columns_merged(context(), MergeOutcome::Assembled(None)) {
        FetchState::Done(Err(FetchEngineBlobError::InternalError(message))) => {
            assert_eq!(message, "Failed to merge partials into assembler")
        }
        _ => panic!("another state"),
    }
}

#[test]
fn the_import_ends_the_fetch() {
    assert!(matches!(
        State::imported(Ok(AvailabilityProcessingStatus::Imported([1; 32]))),
        FetchState::Done(Ok(Some(AvailabilityProcessingStatus::Imported(_))))
    ));
    assert!(ends_with_failed_request(State::imported(Err(request_failed()))));
}

#[test]
fn cells_are_taken_unless_there_are_none() {
    assert!(ends_with_nothing(State::cells_received(context(), Ok(None))));
    assert!(ends_with_nothing(State::cells_received(context(), Ok(Some(Vec::new())))));
    assert!(ends_with_failed_request(State::cells_received(context(), Err(request_failed()))));
    let cells = vec![BlobCellsAndProofs { blob_cells: vec![Some(1)], proofs: vec![Some(2)] }];
    assert!(matches!(
        State::cells_received(context(), Ok(Some(cells))),
        FetchState::CheckImportedV4(_, _)
    ));
}

/// Columns are shown with what they are made of.
struct Cells;

type ColumnParts = (Vec<bool>, Vec<u8>, Vec<u8>);

impl EngineTypes for Cells {
    type BlobAndProofV1 = u32;
    type BlobAndProofV2 = u32;
    type Cell = u8;
    type Proof = u8;
    type Blob = u32;
    type PartialColumn = ColumnParts;
    type Column = u64;
    type Error = String;
}

fn blob(blob_cells: Vec<Option<u8>>, proofs: Vec<Option<u8>>) -> BlobCellsAndProofs<u8, u8> {
    BlobCellsAndProofs { blob_cells, proofs }
}

/// Makes columns of cells; those from column 99 on cannot be made.
fn columns_of_cells(
    blobs: Vec<BlobCellsAndProofs<u8, u8>>,
    custody_columns: Vec<u64>,
    observed: Option<HashSet<u64>>,
    known: Option<Vec<u64>>,
) -> Result<Vec<(u64, ColumnParts)>, FetchError> {
    let make = |column: u64, present: Vec<bool>, cells: Vec<u8>, proofs: Vec<u8>| {
        if column >= 99 {
            Err(format!("column {}", column))
        } else {
            Ok((present, cells, proofs))
        }
    };
    let columns = compute_custody_columns_from_cells::<Cells, _>(
        blobs,
        &custody_columns,
        &observed,
        &known,
        make,
    )?;
    Ok(columns.into_iter().map(|column| (column.index, column.item)).collect())
}

#[test]
fn columns_are_made_of_the_cells_of_all_blobs() {
    let blobs = vec![
        blob(vec![Some(10), Some(11), None], vec![Some(20), Some(21), None]),
        // A cell without its proof is not there, nor is one past the end.
        blob(vec![Some(30), Some(31)], vec![None, Some(41)]),
        blob(vec![Some(50), None, Some(52)], vec![Some(60), Some(61)]),
    ];
    assert_eq!(
        columns_of_cells(blobs, vec![3, 70, 80], None, None).expect("should make columns"),
        vec![
            (3, (vec![true, false, true], vec![10, 50], vec![20, 60])),
            (70, (vec![true, true, false], vec![11, 31], vec![21, 41])),
        ]
    );
    assert!(columns_of_cells(Vec::new(), vec![3, 70], None, None)
        .expect("should make none")
        .is_empty());
}

#[test]
fn seen_columns_are_not_made_of_cells() {
    let blobs = || vec![blob(vec![Some(1), Some(2), Some(3)], vec![Some(4), Some(5), Some(6)])];
    let made = |observed, known| -> Vec<u64> {
        columns_of_cells(blobs(), vec![3, 70, 80], observed, known)
            .expect("should make columns")
            .iter()
            .map(|column| column.0)
            .collect()
    };
    assert_eq!(made(None, None), vec![3, 70, 80]);
    assert_eq!(made(Some(HashSet::from([70])), None), vec![3, 80]);
    assert_eq!(made(None, Some(vec![3, 9])), vec![70, 80]);
    assert_eq!(made(Some(HashSet::from([70, 80])), Some(vec![3])), Vec::<u64>::new());
}

#[test]
fn cells_stand_at_the_places_of_their_columns_in_the_request() {
    // The request asks for columns 3, 9 and 70, in this order.
    let custody = vec![70, 3, 200, 3, 9];
    assert_eq!(find_place(&custody, 3), 0);
    assert_eq!(find_place(&custody, 9), 1);
    assert_eq!(find_place(&custody, 70), 2);
    let blobs = vec![
        blob(vec![Some(1), Some(2), Some(3)], vec![Some(4), Some(5), Some(6)]),
        blob(vec![Some(7), Some(8), Some(9)], vec![Some(10), Some(11), Some(12)]),
    ];
    assert_eq!(
        columns_of_cells(blobs, custody, None, None).expect("should make columns"),
        vec![
            (70, (vec![true, true], vec![3, 9], vec![6, 12])),
            (3, (vec![true, true], vec![1, 7], vec![4, 10])),
            (9, (vec![true, true], vec![2, 8], vec![5, 11])),
        ]
    );
}

#[test]
fn the_first_column_that_cannot_be_made_ends_it() {
    let blobs = vec![blob(vec![Some(1), Some(2), Some(3)], vec![Some(4), Some(5), Some(6)])];
    assert!(matches!(
        columns_of_cells(blobs, vec![3, 99, 100], None, None),
        Err(FetchEngineBlobError::DataColumnSidecarError(text)) if text == "column 99"
    ));
}

#[test]
fn a_column_with_too_many_cells_is_refused() {
    let blobs = |count: usize| {
        let mut blobs: Vec<BlobCellsAndProofs<u8, u8>> =
            (0..count).map(|_| blob(vec![Some(1)], vec![Some(2)])).collect();
        // A cell without its proof does not count.
        blobs[0].proofs = vec![None];
        blobs
    };
    match columns_of_cells(blobs(4098), vec![3, 70], None, None) {
        Err(FetchEngineBlobError::InternalError(message)) => assert_eq!(
            message,
            "Failed to create column: OutOfBounds { i: 4097, len: 4096 }"
        ),
        _ => panic!("another result"),
    }
    let columns = columns_of_cells(blobs(4097), vec![3, 70], None, None).expect("should fit");
    assert_eq!(columns.len(), 1);
    assert_eq!((columns[0].1).1.len(), 4096);
    // A column that was seen is not looked at.
    let observed = Some(HashSet::from([3u64]));
    assert!(columns_of_cells(blobs(4098), vec![3], observed, None).is_ok());
    assert!(columns_of_cells(blobs(4098), vec![3], None, Some(vec![3])).is_ok());
}

#[test]
fn cells_of_all_columns_are_published_as_full_columns() {
    let context = match FetchState::<Cells>::begin(
        [1; 32],
        Slot::new(5),
        &vec![[0xc0; 48]; 2],
        vec![3, 70],
        true,
    ) {
        FetchState::AskV4Support(context) => context,
        _ => panic!("another state"),
    };
    let context = match FetchState::<Cells>::v4_support_answered(context, Ok(true)) {
        FetchState::AskExecutionBlockHash(context) => context,
        _ => panic!("another state"),
    };
    let answer = Ok(Some([8; 32]));
    let context = match FetchState::<Cells>::execution_block_hash_answered(context, answer) {
        FetchState::RequestCellsV4(context, hash, bitarray) => {
            assert_eq!(hash, [8; 32]);
            assert_eq!(bitarray, custody_columns_to_bitarray(&vec![3, 70]));
            context
        }
        _ => panic!("another state"),
    };
    let answer = vec![
        blob(vec![Some(1), Some(2)], vec![Some(3), Some(4)]),
        blob(vec![Some(5), Some(6)], vec![Some(7), Some(8)]),
    ];
    let (context, cells) = match FetchState::<Cells>::cells_received(context, Ok(Some(answer))) {
        FetchState::CheckImportedV4(context, cells) => (context, cells),
        _ => panic!("another state"),
    };
    let (context, cells) = match FetchState::<Cells>::imported_v4_answered(context, cells, false) {
        FetchState::ComputeColumnsFromCells(context, cells) => (context, cells),
        _ => panic!("another state"),
    };
    let made = compute_custody_columns_from_cells::<Cells, _>(
        cells,
        &context.custody_columns,
        &None,
        &None,
        |_, present, cells, proofs| Ok((present, cells, proofs)),
    );
    let (context, columns) =
        match FetchState::<Cells>::columns_computed(context, Some(Ok(made))) {
            FetchState::MergeColumns(context, columns) => (context, columns),
            _ => panic!("another state"),
        };
    // Without an assembler, the columns with the cells of all blobs are full.
    let converted = columns
        .into_iter()
        .map(|column| if column.item.0 == vec![true, true] { Some(column.index) } else { None })
        .collect();
    match FetchState::<Cells>::columns_merged(context, MergeOutcome::Converted(converted)) {
        FetchState::PublishAndImport(_, EngineGetBlobsOutput::CustodyColumns(columns)) => {
            assert_eq!(columns, vec![3, 70])
        }
        _ => panic!("another state"),
    }
}

#[test]
fn bitarray_holds_exactly_the_custody_columns() {
    let bitarray = custody_columns_to_bitarray(&vec![0, 9, 127, 128, 9]);
    assert_eq!(bitarray[0], 1);
    assert_eq!(bitarray[1], 2);
    assert_eq!(bitarray[15], 0x80);
    for i in 0..300 {
        assert_eq!(bitarray_get(&bitarray, i), i == 0 || i == 9 || i == 127);
    }
}
